use ait_core::generation::activation::AuthorityReplacementStrategy;
use ait_core::generation::activation_flow::{
    ActivationAction, ActivationEvent, ActivationPhase, ActivationState,
};

fn digest(c: char) -> String {
    std::iter::repeat(c).take(64).collect()
}

fn started(expected: Option<String>) -> ActivationState {
    ActivationState::new("/repo/.ait/binary-db".to_string(), expected)
}

fn through_staging(captured: &str) -> ActivationState {
    let (state, action) = started(None).step(ActivationEvent::PreconditionRead {
        captured_source_fingerprint: captured.to_string(),
    });
    assert_eq!(action, ActivationAction::FingerprintAuthority);
    let (state, action) = state.step(ActivationEvent::AuthorityFingerprinted {
        fingerprint: captured.to_string(),
    });
    assert_eq!(action, ActivationAction::VerifyGeneration);
    let (state, action) = state.step(ActivationEvent::GenerationVerified {
        source_authority_fingerprint: captured.to_string(),
    });
    assert_eq!(action, ActivationAction::StageAuthority);
    state
}

#[test]
fn a_fresh_verified_generation_replaces_and_is_admitted() {
    let state = through_staging(&digest('a'));
    let (state, action) = state.step(ActivationEvent::AuthorityStaged { had_previous: true });
    assert_eq!(action, ActivationAction::ReplaceAuthority { had_previous: true });
    let (state, action) = state.step(ActivationEvent::AuthorityReplaced {
        strategy: AuthorityReplacementStrategy::AtomicExchange,
    });
    assert_eq!(action, ActivationAction::SyncReplacement);
    let (state, action) = state.step(ActivationEvent::Synced);
    assert_eq!(action, ActivationAction::AdmitGeneration);
    let (state, action) = state.step(ActivationEvent::Admitted);
    assert_eq!(
        action,
        ActivationAction::Finish { strategy: AuthorityReplacementStrategy::AtomicExchange }
    );
    assert_eq!(state.phase, ActivationPhase::Finished);
}

#[test]
fn a_stale_authority_stops_before_anything_is_staged() {
    let (state, _) = started(None).step(ActivationEvent::PreconditionRead {
        captured_source_fingerprint: digest('a'),
    });
    let (state, action) = state.step(ActivationEvent::AuthorityFingerprinted {
        fingerprint: digest('b'),
    });
    assert_eq!(
        action,
        ActivationAction::Fail {
            error: format!(
                "stale Binary DB generation: current authority fingerprint changed after capture: expected={} actual={}",
                digest('a'),
                digest('b')
            ),
            remove_staged: false,
        }
    );
    assert_eq!(state.phase, ActivationPhase::Failed);
}

#[test]
fn an_explicit_expectation_replaces_the_captured_fingerprint() {
    let (state, action) = started(Some(digest('c'))).step(ActivationEvent::PreconditionRead {
        captured_source_fingerprint: digest('a'),
    });
    assert_eq!(action, ActivationAction::FingerprintAuthority);
    let (_, action) = state.step(ActivationEvent::AuthorityFingerprinted { fingerprint: digest('c') });
    assert_eq!(action, ActivationAction::VerifyGeneration);
    let (_, action) = started(Some("not-a-digest".to_string())).step(
        ActivationEvent::PreconditionRead { captured_source_fingerprint: digest('a') },
    );
    assert_eq!(
        action,
        ActivationAction::Fail {
            error: "Binary DB activation expected_current_authority_fingerprint is not SHA-256"
                .to_string(),
            remove_staged: false,
        }
    );
}

#[test]
fn a_generation_verified_from_another_source_is_refused() {
    let (state, _) = started(None).step(ActivationEvent::PreconditionRead {
        captured_source_fingerprint: digest('a'),
    });
    let (state, _) = state.step(ActivationEvent::AuthorityFingerprinted { fingerprint: digest('a') });
    let (_, action) = state.step(ActivationEvent::GenerationVerified {
        source_authority_fingerprint: digest('d'),
    });
    assert_eq!(
        action,
        ActivationAction::Fail {
            error: "Binary DB generation source fingerprint changed during activation verification"
                .to_string(),
            remove_staged: false,
        }
    );
}

#[test]
fn failures_after_replacement_roll_back() {
    let state = through_staging(&digest('a'));
    let (state, _) = state.step(ActivationEvent::AuthorityStaged { had_previous: true });
    let (state, _) = state.step(ActivationEvent::AuthorityReplaced {
        strategy: AuthorityReplacementStrategy::ActivationLockTwoPhaseRename,
    });
    let (state, action) = state.step(ActivationEvent::StepFailed { error: "disk".to_string() });
    assert_eq!(action, ActivationAction::RollBack);
    let (_, action) = state.step(ActivationEvent::RolledBack { error: None });
    assert_eq!(
        action,
        ActivationAction::Fail {
            error: "failed to sync activated direct Binary DB authority: disk; direct authority rollback completed"
                .to_string(),
            remove_staged: false,
        }
    );
}

#[test]
fn a_failed_replacement_removes_the_staged_authority() {
    let state = through_staging(&digest('a'));
    let (state, _) = state.step(ActivationEvent::AuthorityStaged { had_previous: false });
    let (_, action) = state.step(ActivationEvent::StepFailed { error: "busy".to_string() });
    assert_eq!(
        action,
        ActivationAction::Fail {
            error: "failed to replace direct Binary DB authority /repo/.ait/binary-db: busy"
                .to_string(),
            remove_staged: true,
        }
    );
}
