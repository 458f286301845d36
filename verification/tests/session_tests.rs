use teleport_helper::session::{
    artifact_path, proxy_args, ProxySession, SessionAction, SessionError, SessionEvent, Stage,
};

fn ready() -> Option<String> {
    Some("  export AWS_ACCESS_KEY_ID=AKIA...\n  export AWS_SECRET_ACCESS_KEY=xxx\n".to_string())
}

#[test]
fn artifact_path_follows_the_convention() {
    assert_eq!(artifact_path("yl-dev"), "/tmp/tsh_proxy_yl-dev.log");
    assert_eq!(artifact_path(""), "/tmp/tsh_proxy_.log");
}

#[test]
fn proxy_is_started_for_the_target() {
    assert_eq!(proxy_args("yl-admin"), vec!["proxy", "aws", "--app", "yl-admin"]);
}

#[test]
fn session_needs_a_target() {
    match ProxySession::begin("", "dev", 1) {
        Err(e) => assert_eq!(e, SessionError::NoTarget),
        Ok(_) => panic!("a session without a target"),
    }
    let session = ProxySession::begin("yl-dev", "dev", 1700000000).ok().unwrap();
    assert_eq!(session.target, "yl-dev");
    assert_eq!(session.role, "dev");
    assert_eq!(session.artifact_path, "/tmp/tsh_proxy_yl-dev.log");
    assert_eq!(session.created_at, 1700000000);
    assert_eq!(session.stage, Stage::Launching);
    assert_eq!(session.pid, None);
}

#[test]
fn end_to_end_session_from_empty_artifact_to_synced_profile() {
    let mut session = ProxySession::begin("yl-production", "prod", 0).ok().unwrap();
    assert!(matches!(session.advance(SessionEvent::Launched(4242)), SessionAction::ReadArtifact));
    assert_eq!(session.pid, Some(4242));
    assert_eq!(session.stage, Stage::Watching);

    match session.advance(SessionEvent::ArtifactRead(Some(String::new()))) {
        SessionAction::Sleep(ms) => assert_eq!(ms, 500),
        _ => panic!("expected a sleep"),
    }
    assert!(matches!(session.advance(SessionEvent::Slept), SessionAction::ReadArtifact));
    assert!(matches!(
        session.advance(SessionEvent::ArtifactRead(ready())),
        SessionAction::ReadArtifact
    ));
    assert_eq!(session.stage, Stage::Exporting);
    assert_eq!(session.attempts, 1);

    match session.advance(SessionEvent::ArtifactRead(ready())) {
        SessionAction::WriteArtifact(content, credentials) => {
            assert_eq!(
                content,
                "  export AWS_ACCESS_KEY_ID=AKIA...\n  export AWS_SECRET_ACCESS_KEY=xxx\nexport ACCOUNT=yl-production\nexport ROLE=prod\nexport AWS_DEFAULT_REGION=eu-west-1\n"
            );
            assert_eq!(credentials.len(), 5);
            assert_eq!(credentials.get("AWS_ACCESS_KEY_ID"), Some("AKIA...".to_string()));
            assert_eq!(credentials.get("AWS_SECRET_ACCESS_KEY"), Some("xxx".to_string()));
            assert_eq!(credentials.get("ACCOUNT"), Some("yl-production".to_string()));
            assert_eq!(credentials.get("ROLE"), Some("prod".to_string()));
            assert_eq!(credentials.get("AWS_DEFAULT_REGION"), Some("eu-west-1".to_string()));
        }
        _ => panic!("expected the artifact to be replaced"),
    }
    assert_eq!(session.stage, Stage::Replacing);
    assert!(matches!(
        session.advance(SessionEvent::ArtifactWritten(true)),
        SessionAction::ReadProfile
    ));
    match session.advance(SessionEvent::ProfileRead(Some("alias k=kubectl\n".to_string()))) {
        SessionAction::WriteProfile(content) => {
            assert_eq!(content, "alias k=kubectl\nsource /tmp/tsh_proxy_yl-production.log\n")
        }
        _ => panic!("expected the profile to be written"),
    }
    assert!(matches!(session.advance(SessionEvent::ProfileWritten(true)), SessionAction::Finish));
    assert_eq!(session.stage, Stage::Done);
    assert_eq!(session.error, None);
    assert!(matches!(session.advance(SessionEvent::Slept), SessionAction::Rejected));
    assert_eq!(session.stage, Stage::Done);
}

#[test]
fn launch_failure_ends_the_session() {
    let mut session = ProxySession::begin("yl-dev", "dev", 0).ok().unwrap();
    match session.advance(SessionEvent::LaunchFailed) {
        SessionAction::Fail(e) => assert_eq!(e, SessionError::LaunchFailure),
        _ => panic!("expected a failure"),
    }
    assert_eq!(session.stage, Stage::Failed);
    assert_eq!(session.error, Some(SessionError::LaunchFailure));
    assert!(matches!(session.advance(SessionEvent::Launched(1)), SessionAction::Rejected));
    assert_eq!(session.pid, None);
}

#[test]
fn session_times_out_after_twenty_looks_and_twenty_sleeps() {
    let mut session = ProxySession::begin("yl-dev", "dev", 0).ok().unwrap();
    session.advance(SessionEvent::Launched(7));
    let mut slept_ms = 0u64;
    let mut looks = 0;
    loop {
        looks += 1;
        match session.advance(SessionEvent::ArtifactRead(None)) {
            SessionAction::Sleep(ms) => slept_ms += ms,
            _ => panic!("expected a sleep after look {}", looks),
        }
        match session.advance(SessionEvent::Slept) {
            SessionAction::ReadArtifact => {}
            SessionAction::Fail(e) => {
                assert_eq!(e, SessionError::Timeout);
                break;
            }
            _ => panic!("unexpected action"),
        }
    }
    assert_eq!(looks, 20);
    assert_eq!(slept_ms, 10_000);
    assert_eq!(session.stage, Stage::Failed);
    assert_eq!(session.pid, Some(7));
}

#[test]
fn vanished_artifact_fails_the_export() {
    let mut session = ProxySession::begin("yl-dev", "dev", 0).ok().unwrap();
    session.advance(SessionEvent::Launched(7));
    session.advance(SessionEvent::ArtifactRead(ready()));
    match session.advance(SessionEvent::ArtifactRead(None)) {
        SessionAction::Fail(e) => assert_eq!(e, SessionError::ArtifactMissing),
        _ => panic!("expected a failure"),
    }
    let mut other = ProxySession::begin("yl-dev", "dev", 0).ok().unwrap();
    other.advance(SessionEvent::Launched(7));
    other.advance(SessionEvent::ArtifactRead(ready()));
    other.advance(SessionEvent::ArtifactRead(ready()));
    match other.advance(SessionEvent::ArtifactWritten(false)) {
        SessionAction::Fail(e) => assert_eq!(e, SessionError::ArtifactMissing),
        _ => panic!("expected a failure"),
    }
}

#[test]
fn unreadable_or_unwritable_profile_fails_the_sync() {
    for read_ok in [false, true] {
        let mut session = ProxySession::begin("yl-dev", "dev", 0).ok().unwrap();
        session.advance(SessionEvent::Launched(7));
        session.advance(SessionEvent::ArtifactRead(ready()));
        session.advance(SessionEvent::ArtifactRead(ready()));
        session.advance(SessionEvent::ArtifactWritten(true));
        let action = if read_ok {
            session.advance(SessionEvent::ProfileRead(Some(String::new())));
            session.advance(SessionEvent::ProfileWritten(false))
        } else {
            session.advance(SessionEvent::ProfileRead(None))
        };
        match action {
            SessionAction::Fail(e) => assert_eq!(e, SessionError::ProfileIoFailure),
            _ => panic!("expected a failure"),
        }
        assert_eq!(session.error, Some(SessionError::ProfileIoFailure));
    }
}

#[test]
fn events_out_of_order_are_rejected_and_change_nothing() {
    let mut session = ProxySession::begin("yl-dev", "dev", 0).ok().unwrap();
    assert!(matches!(
        session.advance(SessionEvent::ProfileWritten(true)),
        SessionAction::Rejected
    ));
    assert!(matches!(session.advance(SessionEvent::ArtifactRead(ready())), SessionAction::Rejected));
    assert_eq!(session.stage, Stage::Launching);
    session.advance(SessionEvent::Launched(1));
    assert!(matches!(
        session.advance(SessionEvent::ProfileRead(Some(String::new()))),
        SessionAction::Rejected
    ));
    assert!(matches!(session.advance(SessionEvent::ArtifactWritten(true)), SessionAction::Rejected));
    assert_eq!(session.stage, Stage::Watching);
    assert_eq!(session.attempts, 0);
}
