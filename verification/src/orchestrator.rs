//! The analysis orchestrator: a sequential state machine that decides, for
//! each collaborator response, what to scan and what to emit. The
//! collaborator calls themselves (network, wallet extension) happen outside
//! the library; the caller performs the requested fetch and hands the
//! response back together with the generation token of the run it belongs
//! to. A response carrying a stale generation is discarded, never emitted,
//! so a superseded run cannot interleave its late results into the run that
//! replaced it.

use vstd::prelude::*;

use crate::classifiers::does_contain_byron_addresses;
use crate::classifiers::consistent_reward_keys;
use crate::classifiers::no_used_addresses;
use crate::classifiers::spec_consistency_scan;
use crate::classifiers::spec_legacy_scan;
use crate::classifiers::spec_reuse_scan;
use crate::credentials::spec_credentials_of;
use crate::credentials::CredentialSet;
use crate::finding::Finding;
use crate::outputs::Output;

verus! {

/// The error a collaborator call failed with: fatal for the run it
/// interrupts. It carries the collaborator's human-readable message.
pub struct CollaboratorError {
    pub message: String,
}

/// One event emitted toward the presentation layer: one finding per
/// completed stage, or a single terminal error.
pub enum AlertMessage {
    LegacyFinding { finding: Finding },
    ConsistencyFinding { finding: Finding },
    ReuseFinding { finding: Finding },
    AnalysisFailed { error: CollaboratorError },
}

/// The resting phases of a run. Scanning happens synchronously inside a
/// transition, so between calls the machine rests in one of these: after
/// `start` it awaits the output snapshot, after the snapshot it awaits the
/// three credential declarations, and a collaborator failure in either
/// waiting phase is terminal.
pub enum Phase {
    Idle,
    FetchingOutputs,
    FetchingCredentials,
    Done,
    Failed,
}

/// The orchestrator. One value of this type drives at most one run at a
/// time; starting a new run supersedes the previous one by advancing the
/// generation token.
pub struct Analyser {
    pub phase: Phase,
    pub generation: u64,
    pub outputs: Vec<Output>,
}

impl Analyser {
    /// A fresh orchestrator, idle, with no run started yet.
    pub fn new() -> (r: Analyser)
        ensures
            r.phase is Idle,
            r.generation == 0,
            r.outputs@.len() == 0,
    {
        Analyser { phase: Phase::Idle, generation: 0, outputs: Vec::new() }
    }

    /// Begin a run: discard whatever an earlier run accumulated, advance
    /// the generation so that the earlier run's late responses will be
    /// discarded, and await the output snapshot. Returns the new run's
    /// generation token, which the caller must attach to every response.
    pub fn start(&mut self) -> (g: u64)
        requires
            old(self).generation < u64::MAX,
        ensures
            final(self).phase is FetchingOutputs,
            final(self).generation == old(self).generation + 1,
            final(self).outputs@.len() == 0,
            g == final(self).generation,
    {
        self.phase = Phase::FetchingOutputs;
        self.generation = self.generation + 1;
        self.outputs = Vec::new();
        self.generation
    }

    /// The output snapshot arrived: run the legacy classifier over it,
    /// emit its finding, and await the credential declarations. A response
    /// with a stale generation, or one arriving in any other phase, is
    /// ignored and nothing is emitted.
    pub fn outputs_fetched(&mut self, generation: u64, outs: Vec<Output>) -> (r: Option<
        AlertMessage,
    >)
        ensures
            !(generation == old(self).generation && old(self).phase is FetchingOutputs)
                ==> spec_ignored(*old(self), *final(self)) && r is None,
            (generation == old(self).generation && old(self).phase is FetchingOutputs) ==> {
                &&& final(self).phase is FetchingCredentials
                &&& final(self).generation == old(self).generation
                &&& final(self).outputs.deep_view() == outs.deep_view()
                &&& (r matches Some(e) && e matches AlertMessage::LegacyFinding { finding }
                    && finding@ == spec_legacy_scan(outs.deep_view()))
            },
    {
        if generation != self.generation {
            return None;
        }
        match self.phase {
            Phase::FetchingOutputs => {
                let finding = does_contain_byron_addresses(&outs);
                self.outputs = outs;
                self.phase = Phase::FetchingCredentials;
                Some(AlertMessage::LegacyFinding { finding })
            },
            _ => None,
        }
    }

    /// The three credential declarations arrived (reward credentials, used
    /// addresses, unused addresses, in the order they were requested): run
    /// the reward-consistency classifier and then the address-reuse
    /// classifier over the stored snapshot, emit both findings, and finish
    /// the run. The unused-address declaration completes the fetch stage
    /// but feeds no classifier. Stale or out-of-phase responses are
    /// ignored.
    pub fn credentials_fetched(
        &mut self,
        generation: u64,
        reward_addresses: Vec<Vec<u8>>,
        used_addresses: Vec<Vec<u8>>,
        unused_addresses: Vec<Vec<u8>>,
    ) -> (r: Option<(AlertMessage, AlertMessage)>)
        ensures
            !(generation == old(self).generation && old(self).phase is FetchingCredentials)
                ==> spec_ignored(*old(self), *final(self)) && r is None,
            (generation == old(self).generation && old(self).phase is FetchingCredentials) ==> {
                &&& final(self).phase is Done
                &&& final(self).generation == old(self).generation
                &&& final(self).outputs.deep_view() == old(self).outputs.deep_view()
                &&& (r matches Some((e1, e2)) && (e1
                    matches AlertMessage::ConsistencyFinding { finding } && finding@
                    == spec_consistency_scan(
                    spec_credentials_of(reward_addresses.deep_view()),
                    old(self).outputs.deep_view(),
                )) && (e2 matches AlertMessage::ReuseFinding { finding } && finding@
                    == spec_reuse_scan(
                    spec_credentials_of(used_addresses.deep_view()),
                    old(self).outputs.deep_view(),
                )))
            },
    {
        if generation != self.generation {
            return None;
        }
        match self.phase {
            Phase::FetchingCredentials => {
                let _ = unused_addresses;
                let rewards = CredentialSet::from_addresses(&reward_addresses);
                let used = CredentialSet::from_addresses(&used_addresses);
                let consistency = consistent_reward_keys(&rewards, &self.outputs);
                let reuse = no_used_addresses(&used, &self.outputs);
                self.phase = Phase::Done;
                Some(
                    (
                        AlertMessage::ConsistencyFinding { finding: consistency },
                        AlertMessage::ReuseFinding { finding: reuse },
                    ),
                )
            },
            _ => None,
        }
    }

    /// A collaborator call failed: end the run with exactly one terminal
    /// error event and perform no further classification. Findings already
    /// emitted stand; the rest are never emitted. Stale failures, and
    /// failures outside a fetching phase, are ignored.
    pub fn fetch_failed(&mut self, generation: u64, error: CollaboratorError) -> (r: Option<
        AlertMessage,
    >)
        ensures
            !(generation == old(self).generation && (old(self).phase is FetchingOutputs
                || old(self).phase is FetchingCredentials))
                ==> spec_ignored(*old(self), *final(self)) && r is None,
            (generation == old(self).generation && (old(self).phase is FetchingOutputs
                || old(self).phase is FetchingCredentials)) ==> {
                &&& final(self).phase is Failed
                &&& final(self).generation == old(self).generation
                &&& (r matches Some(e) && e matches AlertMessage::AnalysisFailed { error: err }
                    && err == error)
            },
    {
        if generation != self.generation {
            return None;
        }
        match self.phase {
            Phase::FetchingOutputs => {
                self.phase = Phase::Failed;
                Some(AlertMessage::AnalysisFailed { error })
            },
            Phase::FetchingCredentials => {
                self.phase = Phase::Failed;
                Some(AlertMessage::AnalysisFailed { error })
            },
            _ => None,
        }
    }
}

/// An ignored response changes nothing observable about the orchestrator.
pub open spec fn spec_ignored(pre: Analyser, post: Analyser) -> bool {
    &&& post.phase == pre.phase
    &&& post.generation == pre.generation
    &&& post.outputs.deep_view() == pre.outputs.deep_view()
}

/// The consumer-side record of one run: which findings have arrived, and
/// whether the run failed. A finding that is absent is pending while the
/// run is alive and unknown once `failure` is set; findings that arrived
/// before a failure remain the last known state.
pub struct RunResults {
    pub legacy: Option<Finding>,
    pub consistency: Option<Finding>,
    pub reuse: Option<Finding>,
    pub failure: Option<CollaboratorError>,
}

impl RunResults {
    /// The record of a run that has reported nothing yet.
    pub fn new() -> (r: RunResults)
        ensures
            r.legacy is None,
            r.consistency is None,
            r.reuse is None,
            r.failure is None,
    {
        RunResults { legacy: None, consistency: None, reuse: None, failure: None }
    }

    /// Forget everything, as when a new run supersedes this one.
    pub fn reset(&mut self)
        ensures
            final(self).legacy is None,
            final(self).consistency is None,
            final(self).reuse is None,
            final(self).failure is None,
    {
        self.legacy = None;
        self.consistency = None;
        self.reuse = None;
        self.failure = None;
    }

    /// Record one emitted event. Each event updates exactly the field it
    /// reports and leaves every other field as it was.
    pub fn apply(&mut self, event: AlertMessage)
        ensures
            event matches AlertMessage::LegacyFinding { finding } ==> final(self).legacy == Some(
                finding,
            ) && final(self).consistency == old(self).consistency && final(self).reuse == old(
                self,
            ).reuse && final(self).failure == old(self).failure,
            event matches AlertMessage::ConsistencyFinding { finding } ==> final(self).consistency
                == Some(finding) && final(self).legacy == old(self).legacy && final(self).reuse
                == old(self).reuse && final(self).failure == old(self).failure,
            event matches AlertMessage::ReuseFinding { finding } ==> final(self).reuse == Some(
                finding,
            ) && final(self).legacy == old(self).legacy && final(self).consistency == old(
                self,
            ).consistency && final(self).failure == old(self).failure,
            event matches AlertMessage::AnalysisFailed { error } ==> final(self).failure == Some(
                error,
            ) && final(self).legacy == old(self).legacy && final(self).consistency == old(
                self,
            ).consistency && final(self).reuse == old(self).reuse,
    {
        match event {
            AlertMessage::LegacyFinding { finding } => {
                self.legacy = Some(finding);
            },
            AlertMessage::ConsistencyFinding { finding } => {
                self.consistency = Some(finding);
            },
            AlertMessage::ReuseFinding { finding } => {
                self.reuse = Some(finding);
            },
            AlertMessage::AnalysisFailed { error } => {
                self.failure = Some(error);
            },
        }
    }
}

} // verus!
