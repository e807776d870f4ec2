//! The decisions of a generation activation, apart from the file-system
//! work: from the state reached and the outcome of the last step, the next
//! state and the next thing to do. The direct authority is replaced only
//! after the current authority is found fresh and the verified generation
//! was captured from it; any failure after the replacement rolls it back.

use vstd::prelude::*;

use crate::generation::activation::{
    activation_failure, expected_authority_fingerprint, AuthorityReplacementStrategy,
};
use crate::generation::paths::{is_sha256, spec_is_sha256};
use crate::text::{chars_of, owned, push_str, str_eq, string_from_chars};

verus! {

/// How far an activation has come.
#[derive(Clone, Copy, Debug, PartialEq, Eq, Structural)]
pub enum ActivationPhase {
    /// Waiting for the generation's precondition.
    Start,
    /// Waiting for the fingerprint of the current authority.
    AwaitFingerprint,
    /// Waiting for the generation to be verified.
    AwaitVerification,
    /// Waiting for the packs to be installed and the new authority staged.
    AwaitStaging,
    /// Waiting for the staged authority to replace the current one.
    AwaitReplacement,
    /// Waiting for the replacement to be synced.
    AwaitSync,
    /// Waiting for the new authority to be admitted.
    AwaitAdmission,
    /// Waiting for the replacement to be rolled back.
    AwaitRollback,
    Finished,
    Failed,
}

/// What an activation has learned so far.
#[derive(Clone, Debug, PartialEq, Eq)]
pub struct ActivationState {
    pub phase: ActivationPhase,
    pub authority_root: String,
    pub expected_override: Option<String>,
    pub captured_source_fingerprint: Option<String>,
    pub expected_current_fingerprint: Option<String>,
    pub current_authority_fingerprint: Option<String>,
    pub verified_source_fingerprint: Option<String>,
    pub had_previous: bool,
    pub replacement: Option<AuthorityReplacementStrategy>,
    pub primary_failure: Option<String>,
}

/// The outcome of the step an activation asked for.
#[derive(Clone, Debug, PartialEq, Eq)]
pub enum ActivationEvent {
    /// The generation's manifest passed its precondition.
    PreconditionRead { captured_source_fingerprint: String },
    /// The current authority has this state fingerprint.
    AuthorityFingerprinted { fingerprint: String },
    /// The generation verified, captured from this source fingerprint.
    GenerationVerified { source_authority_fingerprint: String },
    /// Packs are installed and the new authority is staged; whether an
    /// authority was in place before.
    AuthorityStaged { had_previous: bool },
    /// Inspecting the authority in place failed.
    AuthorityInspectionFailed { error: String },
    /// The staged authority replaced the current one.
    AuthorityReplaced { strategy: AuthorityReplacementStrategy },
    Synced,
    Admitted,
    /// Rolling back the replacement ended, with this error if it failed.
    RolledBack { error: Option<String> },
    /// The step asked for failed.
    StepFailed { error: String },
}

/// What an activation does next.
#[derive(Clone, Debug, PartialEq, Eq)]
pub enum ActivationAction {
    FingerprintAuthority,
    VerifyGeneration,
    StageAuthority,
    ReplaceAuthority { had_previous: bool },
    SyncReplacement,
    AdmitGeneration,
    RollBack,
    /// Done: the authority was replaced this way.
    Finish { strategy: AuthorityReplacementStrategy },
    /// Stop with this error, first removing the staged authority when asked.
    Fail { error: String, remove_staged: bool },
}

/// An activation state as plain values.
pub struct ActivationStateView {
    pub phase: ActivationPhase,
    pub authority_root: Seq<char>,
    pub expected_override: Option<Seq<char>>,
    pub captured: Option<Seq<char>>,
    pub expected: Option<Seq<char>>,
    pub current: Option<Seq<char>>,
    pub verified_source: Option<Seq<char>>,
    pub had_previous: bool,
    pub replacement: Option<AuthorityReplacementStrategy>,
    pub primary_failure: Option<Seq<char>>,
}

pub enum ActivationEventView {
    PreconditionRead(Seq<char>),
    AuthorityFingerprinted(Seq<char>),
    GenerationVerified(Seq<char>),
    AuthorityStaged(bool),
    AuthorityInspectionFailed(Seq<char>),
    AuthorityReplaced(AuthorityReplacementStrategy),
    Synced,
    Admitted,
    RolledBack(Option<Seq<char>>),
    StepFailed(Seq<char>),
}

pub enum ActivationActionView {
    FingerprintAuthority,
    VerifyGeneration,
    StageAuthority,
    ReplaceAuthority(bool),
    SyncReplacement,
    AdmitGeneration,
    RollBack,
    Finish(AuthorityReplacementStrategy),
    Fail(Seq<char>, bool),
}

pub open spec fn opt_string(o: Option<String>) -> Option<Seq<char>> {
    match o {
        Some(s) => Some(s@),
        None => None,
    }
}

impl ActivationState {
    pub open spec fn view(&self) -> ActivationStateView {
        ActivationStateView {
            phase: self.phase,
            authority_root: self.authority_root@,
            expected_override: opt_string(self.expected_override),
            captured: opt_string(self.captured_source_fingerprint),
            expected: opt_string(self.expected_current_fingerprint),
            current: opt_string(self.current_authority_fingerprint),
            verified_source: opt_string(self.verified_source_fingerprint),
            had_previous: self.had_previous,
            replacement: self.replacement,
            primary_failure: opt_string(self.primary_failure),
        }
    }
}

impl ActivationEvent {
    pub open spec fn view(&self) -> ActivationEventView {
        match self {
            ActivationEvent::PreconditionRead { captured_source_fingerprint } => ActivationEventView::PreconditionRead(
                captured_source_fingerprint@,
            ),
            ActivationEvent::AuthorityFingerprinted { fingerprint } => ActivationEventView::AuthorityFingerprinted(
                fingerprint@,
            ),
            ActivationEvent::GenerationVerified { source_authority_fingerprint } => ActivationEventView::GenerationVerified(
                source_authority_fingerprint@,
            ),
            ActivationEvent::AuthorityStaged { had_previous } => ActivationEventView::AuthorityStaged(*had_previous),
            ActivationEvent::AuthorityInspectionFailed { error } => ActivationEventView::AuthorityInspectionFailed(
                error@,
            ),
            ActivationEvent::AuthorityReplaced { strategy } => ActivationEventView::AuthorityReplaced(*strategy),
            ActivationEvent::Synced => ActivationEventView::Synced,
            ActivationEvent::Admitted => ActivationEventView::Admitted,
            ActivationEvent::RolledBack { error } => ActivationEventView::RolledBack(opt_string(*error)),
            ActivationEvent::StepFailed { error } => ActivationEventView::StepFailed(error@),
        }
    }
}

impl ActivationAction {
    pub open spec fn view(&self) -> ActivationActionView {
        match self {
            ActivationAction::FingerprintAuthority => ActivationActionView::FingerprintAuthority,
            ActivationAction::VerifyGeneration => ActivationActionView::VerifyGeneration,
            ActivationAction::StageAuthority => ActivationActionView::StageAuthority,
            ActivationAction::ReplaceAuthority { had_previous } => ActivationActionView::ReplaceAuthority(
                *had_previous,
            ),
            ActivationAction::SyncReplacement => ActivationActionView::SyncReplacement,
            ActivationAction::AdmitGeneration => ActivationActionView::AdmitGeneration,
            ActivationAction::RollBack => ActivationActionView::RollBack,
            ActivationAction::Finish { strategy } => ActivationActionView::Finish(*strategy),
            ActivationAction::Fail { error, remove_staged } => ActivationActionView::Fail(
                error@,
                *remove_staged,
            ),
        }
    }
}

pub open spec fn text_or_empty(o: Option<Seq<char>>) -> Seq<char> {
    match o {
        Some(t) => t,
        None => Seq::empty(),
    }
}

/// `s` moved on to `phase`.
pub open spec fn moved(s: ActivationStateView, phase: ActivationPhase) -> ActivationStateView {
    ActivationStateView { phase, ..s }
}

pub open spec fn failed(s: ActivationStateView, error: Seq<char>, remove_staged: bool) -> (
    ActivationStateView,
    ActivationActionView,
) {
    (moved(s, ActivationPhase::Failed), ActivationActionView::Fail(error, remove_staged))
}

pub open spec fn stale_message(expected: Seq<char>, actual: Seq<char>) -> Seq<char> {
    "stale Binary DB generation: current authority fingerprint changed after capture: expected="@
        + expected + " actual="@ + actual
}

pub open spec fn rollback_message(primary: Seq<char>, error: Option<Seq<char>>) -> Seq<char> {
    primary + "; "@ + match error {
        None => "direct authority rollback completed"@,
        Some(e) => "direct authority rollback failed: "@ + e,
    }
}

/// The next state and action of an activation in state `s` after event `e`.
/// An event that the phase does not wait for fails the activation.
pub open spec fn activation_next(s: ActivationStateView, e: ActivationEventView) -> (
    ActivationStateView,
    ActivationActionView,
) {
    match (s.phase, e) {
        (ActivationPhase::Start, ActivationEventView::PreconditionRead(captured)) => {
            let expected = expected_authority_fingerprint(s.expected_override, captured);
            let s2 = ActivationStateView { captured: Some(captured), expected: Some(expected), ..s };
            if !spec_is_sha256(expected) {
                failed(
                    s2,
                    "Binary DB activation expected_current_authority_fingerprint is not SHA-256"@,
                    false,
                )
            } else {
                (moved(s2, ActivationPhase::AwaitFingerprint), ActivationActionView::FingerprintAuthority)
            }
        },
        (ActivationPhase::AwaitFingerprint, ActivationEventView::AuthorityFingerprinted(current)) => {
            let s2 = ActivationStateView { current: Some(current), ..s };
            if s.expected == Some(current) {
                (moved(s2, ActivationPhase::AwaitVerification), ActivationActionView::VerifyGeneration)
            } else {
                failed(s2, stale_message(text_or_empty(s.expected), current), false)
            }
        },
        (ActivationPhase::AwaitVerification, ActivationEventView::GenerationVerified(source)) => {
            let s2 = ActivationStateView { verified_source: Some(source), ..s };
            if s.captured == Some(source) {
                (moved(s2, ActivationPhase::AwaitStaging), ActivationActionView::StageAuthority)
            } else {
                failed(
                    s2,
                    "Binary DB generation source fingerprint changed during activation verification"@,
                    false,
                )
            }
        },
        (ActivationPhase::AwaitStaging, ActivationEventView::AuthorityStaged(had_previous)) => {
            let s2 = ActivationStateView { had_previous, ..s };
            (
                moved(s2, ActivationPhase::AwaitReplacement),
                ActivationActionView::ReplaceAuthority(had_previous),
            )
        },
        (ActivationPhase::AwaitStaging, ActivationEventView::AuthorityInspectionFailed(error)) => failed(
            s,
            "failed to inspect Binary DB authority "@ + s.authority_root + ": "@ + error,
            true,
        ),
        (ActivationPhase::AwaitReplacement, ActivationEventView::AuthorityReplaced(strategy)) => {
            let s2 = ActivationStateView { replacement: Some(strategy), ..s };
            (moved(s2, ActivationPhase::AwaitSync), ActivationActionView::SyncReplacement)
        },
        (ActivationPhase::AwaitReplacement, ActivationEventView::StepFailed(error)) => failed(
            s,
            "failed to replace direct Binary DB authority "@ + s.authority_root + ": "@ + error,
            true,
        ),
        (ActivationPhase::AwaitSync, ActivationEventView::Synced) => (
            moved(s, ActivationPhase::AwaitAdmission),
            ActivationActionView::AdmitGeneration,
        ),
        (ActivationPhase::AwaitSync, ActivationEventView::StepFailed(error)) => {
            let s2 = ActivationStateView {
                primary_failure: Some(
                    "failed to sync activated direct Binary DB authority: "@ + error,
                ),
                ..s
            };
            (moved(s2, ActivationPhase::AwaitRollback), ActivationActionView::RollBack)
        },
        (ActivationPhase::AwaitAdmission, ActivationEventView::Admitted) => match s.replacement {
            Some(strategy) => (moved(s, ActivationPhase::Finished), ActivationActionView::Finish(strategy)),
            None => failed(s, "Binary DB activation received an unexpected step outcome"@, false),
        },
        (ActivationPhase::AwaitAdmission, ActivationEventView::StepFailed(error)) => {
            let s2 = ActivationStateView {
                primary_failure: Some(
                    "activated direct Binary DB authority failed bounded admission: "@ + error,
                ),
                ..s
            };
            (moved(s2, ActivationPhase::AwaitRollback), ActivationActionView::RollBack)
        },
        (ActivationPhase::AwaitRollback, ActivationEventView::RolledBack(result)) => failed(
            s,
            rollback_message(text_or_empty(s.primary_failure), result),
            false,
        ),
        (ActivationPhase::AwaitSync, _) | (ActivationPhase::AwaitAdmission, _) => {
            let s2 = ActivationStateView {
                primary_failure: Some("Binary DB activation received an unexpected step outcome"@),
                ..s
            };
            (moved(s2, ActivationPhase::AwaitRollback), ActivationActionView::RollBack)
        },
        (_, ActivationEventView::StepFailed(error)) => failed(s, error, false),
        _ => failed(s, "Binary DB activation received an unexpected step outcome"@, false),
    }
}

/// The checks that make a replacement safe: the current authority had the
/// expected fingerprint, the expected fingerprint is a SHA-256 digest, and
/// the verified generation was captured from the source it names.
pub open spec fn checks_passed(s: ActivationStateView) -> bool {
    &&& s.captured is Some
    &&& s.expected is Some
    &&& spec_is_sha256(s.expected->0)
    &&& s.expected == Some(expected_authority_fingerprint(s.expected_override, s.captured->0))
    &&& s.current == s.expected
    &&& s.verified_source == s.captured
}

/// What holds of every state an activation reaches.
pub open spec fn activation_inv(s: ActivationStateView) -> bool {
    &&& (s.phase == ActivationPhase::AwaitStaging || s.phase == ActivationPhase::AwaitReplacement
        || s.phase == ActivationPhase::AwaitSync || s.phase == ActivationPhase::AwaitAdmission
        || s.phase == ActivationPhase::AwaitRollback || s.phase == ActivationPhase::Finished)
        ==> checks_passed(s)
    &&& (s.phase == ActivationPhase::AwaitSync || s.phase == ActivationPhase::AwaitAdmission
        || s.phase == ActivationPhase::Finished) ==> s.replacement is Some
    &&& s.phase == ActivationPhase::AwaitRollback ==> s.replacement is Some && s.primary_failure is Some
    &&& (s.phase == ActivationPhase::Start || s.phase == ActivationPhase::AwaitFingerprint
        || s.phase == ActivationPhase::AwaitVerification || s.phase == ActivationPhase::AwaitStaging
        || s.phase == ActivationPhase::AwaitReplacement) ==> s.replacement is None
    &&& s.phase == ActivationPhase::AwaitFingerprint ==> s.captured is Some && s.expected is Some
        && spec_is_sha256(s.expected->0) && s.expected == Some(
        expected_authority_fingerprint(s.expected_override, s.captured->0),
    )
    &&& s.phase == ActivationPhase::AwaitVerification ==> s.captured is Some && s.expected is Some
        && spec_is_sha256(s.expected->0) && s.expected == Some(
        expected_authority_fingerprint(s.expected_override, s.captured->0),
    ) && s.current == s.expected
}

fn opt_clone(o: &Option<String>) -> (r: Option<String>)
    ensures
        r == *o,
{
    match o {
        Some(s) => Some(s.clone()),
        None => None,
    }
}

fn opt_text_eq(o: &Option<String>, t: &str) -> (r: bool)
    ensures
        r == (opt_string(*o) == Some(t@)),
{
    match o {
        Some(s) => str_eq(s.as_str(), t),
        None => false,
    }
}

impl ActivationState {
    /// The state of an activation that has not started, for the authority at
    /// `authority_root` and the fingerprint the caller expects it to have,
    /// if any.
    pub fn new(authority_root: String, expected_override: Option<String>) -> (s: Self)
        ensures
            s.view().phase == ActivationPhase::Start,
            s.view().authority_root == authority_root@,
            s.view().expected_override == opt_string(expected_override),
            s.view().captured is None && s.view().expected is None && s.view().current is None,
            s.view().verified_source is None && s.view().replacement is None,
            s.view().primary_failure is None && !s.view().had_previous,
            activation_inv(s.view()),
    {
        ActivationState {
            phase: ActivationPhase::Start,
            authority_root,
            expected_override,
            captured_source_fingerprint: None,
            expected_current_fingerprint: None,
            current_authority_fingerprint: None,
            verified_source_fingerprint: None,
            had_previous: false,
            replacement: None,
            primary_failure: None,
        }
    }

    fn into_failed(self, error: String, remove_staged: bool) -> (r: (ActivationState, ActivationAction))
        ensures
            r.0.view() == moved(self.view(), ActivationPhase::Failed),
            r.1.view() == ActivationActionView::Fail(error@, remove_staged),
    {
        (ActivationState { phase: ActivationPhase::Failed, ..self }, ActivationAction::Fail { error, remove_staged })
    }

    fn into_rollback(self, primary: String) -> (r: (ActivationState, ActivationAction))
        ensures
            r.0.view() == moved(
                ActivationStateView { primary_failure: Some(primary@), ..self.view() },
                ActivationPhase::AwaitRollback,
            ),
            r.1.view() == ActivationActionView::RollBack,
    {
        (
            ActivationState {
                phase: ActivationPhase::AwaitRollback,
                primary_failure: Some(primary),
                ..self
            },
            ActivationAction::RollBack,
        )
    }

    /// Decides what follows `event` in this state.
    pub fn step(self, event: ActivationEvent) -> (r: (ActivationState, ActivationAction))
        ensures
            (r.0.view(), r.1.view()) == activation_next(self.view(), event.view()),
    {
        let ghost sv = self.view();
        let ghost ev = event.view();
        match (self.phase, event) {
            (ActivationPhase::Start, ActivationEvent::PreconditionRead { captured_source_fingerprint }) => {
                let expected = match &self.expected_override {
                    Some(e) => e.clone(),
                    None => captured_source_fingerprint.clone(),
                };
                let fresh_format = is_sha256(expected.as_str());
                let s2 = ActivationState {
                    captured_source_fingerprint: Some(captured_source_fingerprint),
                    expected_current_fingerprint: Some(expected),
                    ..self
                };
                if !fresh_format {
                    s2.into_failed(
                        owned("Binary DB activation expected_current_authority_fingerprint is not SHA-256"),
                        false,
                    )
                } else {
                    (
                        ActivationState { phase: ActivationPhase::AwaitFingerprint, ..s2 },
                        ActivationAction::FingerprintAuthority,
                    )
                }
            },
            (ActivationPhase::AwaitFingerprint, ActivationEvent::AuthorityFingerprinted { fingerprint }) => {
                let fresh = opt_text_eq(&self.expected_current_fingerprint, fingerprint.as_str());
                let expected = match &self.expected_current_fingerprint {
                    Some(e) => e.clone(),
                    None => String::new(),
                };
                let mut v = chars_of(
                    "stale Binary DB generation: current authority fingerprint changed after capture: expected=",
                );
                push_str(&mut v, expected.as_str());
                push_str(&mut v, " actual=");
                push_str(&mut v, fingerprint.as_str());
                let s2 = ActivationState { current_authority_fingerprint: Some(fingerprint), ..self };
                if fresh {
                    (
                        ActivationState { phase: ActivationPhase::AwaitVerification, ..s2 },
                        ActivationAction::VerifyGeneration,
                    )
                } else {
                    s2.into_failed(string_from_chars(&v), false)
                }
            },
            (
                ActivationPhase::AwaitVerification,
                ActivationEvent::GenerationVerified { source_authority_fingerprint },
            ) => {
                let matches = opt_text_eq(
                    &self.captured_source_fingerprint,
                    source_authority_fingerprint.as_str(),
                );
                let s2 = ActivationState {
                    verified_source_fingerprint: Some(source_authority_fingerprint),
                    ..self
                };
                if matches {
                    (
                        ActivationState { phase: ActivationPhase::AwaitStaging, ..s2 },
                        ActivationAction::StageAuthority,
                    )
                } else {
                    s2.into_failed(
                        owned(
                            "Binary DB generation source fingerprint changed during activation verification",
                        ),
                        false,
                    )
                }
            },
            (ActivationPhase::AwaitStaging, ActivationEvent::AuthorityStaged { had_previous }) => (
                ActivationState { phase: ActivationPhase::AwaitReplacement, had_previous, ..self },
                ActivationAction::ReplaceAuthority { had_previous },
            ),
            (ActivationPhase::AwaitStaging, ActivationEvent::AuthorityInspectionFailed { error }) => {
                let mut v = chars_of("failed to inspect Binary DB authority ");
                push_str(&mut v, self.authority_root.as_str());
                push_str(&mut v, ": ");
                push_str(&mut v, error.as_str());
                self.into_failed(string_from_chars(&v), true)
            },
            (ActivationPhase::AwaitReplacement, ActivationEvent::AuthorityReplaced { strategy }) => (
                ActivationState {
                    phase: ActivationPhase::AwaitSync,
                    replacement: Some(strategy),
                    ..self
                },
                ActivationAction::SyncReplacement,
            ),
            (ActivationPhase::AwaitReplacement, ActivationEvent::StepFailed { error }) => {
                let mut v = chars_of("failed to replace direct Binary DB authority ");
                push_str(&mut v, self.authority_root.as_str());
                push_str(&mut v, ": ");
                push_str(&mut v, error.as_str());
                self.into_failed(string_from_chars(&v), true)
            },
            (ActivationPhase::AwaitSync, ActivationEvent::Synced) => (
                ActivationState { phase: ActivationPhase::AwaitAdmission, ..self },
                ActivationAction::AdmitGeneration,
            ),
            (ActivationPhase::AwaitSync, ActivationEvent::StepFailed { error }) => {
                let mut v = chars_of("failed to sync activated direct Binary DB authority: ");
                push_str(&mut v, error.as_str());
                self.into_rollback(string_from_chars(&v))
            },
            (ActivationPhase::AwaitAdmission, ActivationEvent::Admitted) => match self.replacement {
                Some(strategy) => (
                    ActivationState { phase: ActivationPhase::Finished, ..self },
                    ActivationAction::Finish { strategy },
                ),
                None => self.into_failed(
                    owned("Binary DB activation received an unexpected step outcome"),
                    false,
                ),
            },
            (ActivationPhase::AwaitAdmission, ActivationEvent::StepFailed { error }) => {
                let mut v = chars_of("activated direct Binary DB authority failed bounded admission: ");
                push_str(&mut v, error.as_str());
                self.into_rollback(string_from_chars(&v))
            },
            (ActivationPhase::AwaitRollback, ActivationEvent::RolledBack { error }) => {
                let primary = match &self.primary_failure {
                    Some(p) => p.clone(),
                    None => String::new(),
                };
                let result: Result<(), String> = match error {
                    None => Ok(()),
                    Some(e) => Err(e),
                };
                let message = activation_failure(primary.as_str(), &result);
                self.into_failed(message, false)
            },
            (ActivationPhase::AwaitSync, _) | (ActivationPhase::AwaitAdmission, _) => {
                self.into_rollback(owned("Binary DB activation received an unexpected step outcome"))
            },
            (_, ActivationEvent::StepFailed { error }) => self.into_failed(error, false),
            _ => self.into_failed(owned("Binary DB activation received an unexpected step outcome"), false),
        }
    }
}

// ----- laws of the activation ------------------------------------------------------

/// Every step keeps the activation invariant: from any state that meets it,
/// whatever the outcome of the last step, the next state meets it too.
pub proof fn law_activation_keeps_its_invariant(s: ActivationStateView, e: ActivationEventView)
    requires
        activation_inv(s),
    ensures
        activation_inv(activation_next(s, e).0),
{
}

/// The direct authority is replaced only after every check passed: the
/// current authority had the expected SHA-256 fingerprint (the caller's, or
/// else the captured source's), and the verified generation was captured
/// from the source its manifest names.
pub proof fn law_replacement_only_after_checks(s: ActivationStateView, e: ActivationEventView)
    requires
        activation_inv(s),
        activation_next(s, e).1 is ReplaceAuthority,
    ensures
        checks_passed(activation_next(s, e).0),
        checks_passed(s),
        s.phase == ActivationPhase::AwaitStaging,
{
}

/// Once the authority has been replaced, every failure rolls the
/// replacement back before the activation stops.
pub proof fn law_failure_after_replacement_rolls_back(s: ActivationStateView, e: ActivationEventView)
    requires
        activation_inv(s),
        s.phase == ActivationPhase::AwaitSync || s.phase == ActivationPhase::AwaitAdmission,
        !(e is Synced) && !(e is Admitted),
    ensures
        activation_next(s, e).1 is RollBack,
        activation_next(s, e).0.phase == ActivationPhase::AwaitRollback,
{
}

/// An activation finishes only when the replaced authority was admitted,
/// and then every check had passed.
pub proof fn law_finish_only_after_admission(s: ActivationStateView, e: ActivationEventView)
    requires
        activation_inv(s),
        activation_next(s, e).1 is Finish,
    ensures
        s.phase == ActivationPhase::AwaitAdmission,
        e is Admitted,
        checks_passed(s),
        s.replacement is Some,
        activation_next(s, e).1 == ActivationActionView::Finish(s.replacement->0),
{
}

/// A stale generation never gets past the fingerprint check: when the
/// current authority's fingerprint differs from the expected one, the
/// activation fails without removing or replacing anything.
pub proof fn law_stale_authority_stops_activation(s: ActivationStateView, current: Seq<char>)
    requires
        activation_inv(s),
        s.phase == ActivationPhase::AwaitFingerprint,
        s.expected != Some(current),
    ensures
        activation_next(s, ActivationEventView::AuthorityFingerprinted(current)).1
            == ActivationActionView::Fail(stale_message(s.expected->0, current), false),
{
}

} // verus!
