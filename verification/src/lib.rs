pub mod chars;
pub mod manifest;
pub mod overrides;
pub mod tags;
pub mod yamlmodel;

use vstd::prelude::*;

verus! {

// ---------------------------------------------------------------------------
// Process configuration: constructed once at startup and passed into the
// update cycle; the core never reads ambient state.
// ---------------------------------------------------------------------------

pub struct Config {
    pub repository_url: String,
    pub ssh_key_path: String,
    pub github_username: String,
    pub github_key: String,
    pub repo_tmpdir: String,
    pub secret: String,
}

// ---------------------------------------------------------------------------
// Trigger guard: a SecretGuard value exists exactly when the presented secret
// equals the configured one, so holding one witnesses authorization.
// ---------------------------------------------------------------------------

pub struct SecretGuard;

impl SecretGuard {
    /// Grants access iff the presented secret equals the configured one; a
    /// missing or mismatched secret is rejected the same way.
    pub fn check(presented: Option<&String>, configured: &String) -> (r: Option<SecretGuard>)
        ensures
            r is Some <==> (presented matches Some(p) && p@ == configured@),
    {
        match presented {
            Some(p) => {
                if *p == *configured {
                    Some(SecretGuard)
                } else {
                    None
                }
            },
            None => None,
        }
    }
}

pub enum TriggerAction {
    /// Do nothing: the trigger was not authorized.
    Reject,
    /// Run one update cycle: synchronize, extract, resolve, patch, and
    /// commit-and-push if anything changed.
    RunUpdate,
}

/// The decision taken on an inbound trigger: an update cycle runs exactly
/// when the presented secret matches, so an unauthorized trigger causes no
/// synchronization, no extraction and no write.
pub fn trigger_action(presented: Option<&String>, configured: &String) -> (r: TriggerAction)
    ensures
        r is RunUpdate <==> (presented matches Some(p) && p@ == configured@),
{
    match SecretGuard::check(presented, configured) {
        Some(_) => TriggerAction::RunUpdate,
        None => TriggerAction::Reject,
    }
}

// ---------------------------------------------------------------------------
// The cycle's commit decision.
// ---------------------------------------------------------------------------

/// What became of one candidate during an update cycle: its override was
/// rewritten, it was already up to date, or it was skipped after a failure.
pub enum CandidateOutcome {
    Changed,
    Unchanged,
    Skipped,
}

/// An update cycle commits and pushes exactly when at least one candidate's
/// override file was really rewritten: a cycle in which no resolved tag
/// differed from its current override value performs no git write.
pub fn needs_commit(outcomes: &Vec<CandidateOutcome>) -> (r: bool)
    ensures
        r == exists|i: int| 0 <= i < outcomes@.len() && outcomes@[i] is Changed,
{
    let mut k: usize = 0;
    while k < outcomes.len()
        invariant
            0 <= k <= outcomes@.len(),
            forall|i: int| 0 <= i < k ==> !(outcomes@[i] is Changed),
        decreases outcomes@.len() - k,
    {
        if matches!(outcomes[k], CandidateOutcome::Changed) {
            return true;
        }
        k += 1;
    }
    false
}

} // verus!
