use regex::Regex;
use teleport_helper::display::{
    notification_frame, wave_cell, NotificationFrame, WaveCell,
};
use teleport_helper::exporter::export_session;
use teleport_helper::reaper::{summarize_reap, ReapOutcome};
use teleport_helper::session::{ProxySession, SessionAction, SessionEvent, Stage};
use teleport_helper::shell::{sync_profile, ShellIntegration};
use teleport_helper::update::{UpdateCache, UpdateChecker};
use teleport_helper::watcher::{WatchStep, Watcher};

#[test]
fn derived_credentials_win_over_what_the_artifact_held() {
    let content = "export ACCOUNT=evil\n  export ROLE=\"root\"\nexport OTHER=kept\nexport AWS_DEFAULT_REGION=mars\n";
    let outcome = export_session(content, "yl-usstaging", "usstaging");
    let env = outcome.credentials;
    assert_eq!(env.get("ACCOUNT"), Some("yl-usstaging".to_string()));
    assert_eq!(env.get("ROLE"), Some("usstaging".to_string()));
    assert_eq!(env.get("AWS_DEFAULT_REGION"), Some("us-east-2".to_string()));
    assert_eq!(env.get("OTHER"), Some("kept".to_string()));
    assert_eq!(env.len(), 7);
}

#[test]
fn exported_artifact_holds_nothing_but_export_lines() {
    let re = Regex::new(r"^[[:space:]]*export ").unwrap();
    let contents = [
        "banner\n  export A=1\r\nnoise\n\texport B=2\n",
        "  export AWS_ACCESS_KEY_ID=x",
        "x  export AWS_ACCESS_KEY_ID=not a line of its own\n",
        "",
    ];
    for content in contents {
        let artifact = export_session(content, "yl-dev", "dev").artifact;
        let had_exports = content.lines().any(|l| re.is_match(l));
        for (i, line) in artifact.lines().enumerate() {
            if i == 0 && !had_exports {
                assert_eq!(line, "", "content {:?}", content);
            } else {
                assert!(re.is_match(line), "line {:?} of {:?}", line, content);
            }
        }
    }
}

#[test]
fn cleanup_takes_the_source_line_of_a_session_out_again() {
    let shell = ShellIntegration::new(Some("/bin/zsh"), Some("/home/op")).unwrap();
    let before = "alias k=kubectl\nexport PATH=/x\n";
    let synced = sync_profile(before, "/tmp/tsh_proxy_yl-dev.log");
    assert_eq!(shell.cleanup_profile(&synced), before);
    assert_eq!(shell.cleanup_profile(&sync_profile("", "/tmp/tsh_proxy_yl-dev.log")), "");
}

#[test]
fn sync_after_sync_changes_nothing() {
    let profiles = [
        "",
        "alias k=kubectl\n",
        "a\n\nb",
        "source /tmp/tsh_proxy_old.log\nkeep\n",
        "source /tmp/tshx\n",
        "\n\n",
    ];
    for profile in profiles {
        let path = "/tmp/tsh_proxy_yl-dev.log";
        let once = sync_profile(profile, path);
        assert_eq!(sync_profile(&once, path), once, "{:?}", profile);
    }
    let with_cr = sync_profile("a\r\r\n", "/tmp/tsh_proxy_yl-dev.log");
    assert_ne!(sync_profile(&with_cr, "/tmp/tsh_proxy_yl-dev.log"), with_cr);
}

#[test]
fn stages_are_gone_through_in_order() {
    let mut session = ProxySession::begin("yl-dev", "dev", 0).ok().unwrap();
    let ready = Some("  export AWS_ACCESS_KEY_ID=x\n".to_string());
    let mut seen = vec![session.stage];
    let events = vec![
        SessionEvent::Launched(1),
        SessionEvent::ArtifactRead(None),
        SessionEvent::Slept,
        SessionEvent::ArtifactRead(ready.clone()),
        SessionEvent::ArtifactRead(ready),
        SessionEvent::ArtifactWritten(true),
        SessionEvent::ProfileRead(Some(String::new())),
        SessionEvent::ProfileWritten(true),
    ];
    for event in events {
        assert!(!matches!(session.advance(event), SessionAction::Rejected));
        if *seen.last().unwrap() != session.stage {
            seen.push(session.stage);
        }
    }
    assert_eq!(
        seen,
        vec![
            Stage::Launching,
            Stage::Watching,
            Stage::Exporting,
            Stage::Replacing,
            Stage::Syncing,
            Stage::Rewriting,
            Stage::Done
        ]
    );
}

#[test]
fn spent_watcher_stays_spent() {
    let mut watcher = Watcher { attempts: 20 };
    assert_eq!(watcher.observe(None), WatchStep::TimedOut);
    assert_eq!(watcher.attempts, 20);
    let mut far = Watcher { attempts: u32::MAX };
    assert_eq!(far.observe(Some("nothing")), WatchStep::TimedOut);
    assert_eq!(far.attempts, u32::MAX);
}

#[test]
fn logout_counts_as_done_whatever_failed() {
    assert_eq!(summarize_reap(&vec![true, true, true]), ReapOutcome::Complete);
    assert_eq!(summarize_reap(&Vec::new()), ReapOutcome::Complete);
    assert_eq!(summarize_reap(&vec![true, false, true, false]), ReapOutcome::PartialFailure(2));
    assert!(ReapOutcome::Complete.is_success());
    assert!(ReapOutcome::PartialFailure(5).is_success());
}

#[test]
fn wave_carries_the_message_in_its_middle() {
    let message_len = 5;
    let cells: Vec<WaveCell> = (0..63).map(|i| wave_cell(i, 31, message_len)).collect();
    assert_eq!(cells[27], WaveCell::Dim);
    assert_eq!(cells[28], WaveCell::Pad);
    assert_eq!(cells[29], WaveCell::Letter(0));
    assert_eq!(cells[30], WaveCell::Letter(1));
    assert_eq!(cells[31], WaveCell::Crest(7));
    assert_eq!(cells[33], WaveCell::Letter(4));
    assert_eq!(cells[34], WaveCell::Pad);
    assert_eq!(cells[35], WaveCell::Dim);
    assert_eq!(wave_cell(0, 0, 61), WaveCell::Crest(0));
    assert_eq!(wave_cell(0, 5, 61), WaveCell::Pad);
    assert_eq!(wave_cell(62, 5, 61), WaveCell::Pad);
    assert_eq!(wave_cell(1, 5, 61), WaveCell::Letter(0));
}

#[test]
fn notification_frame_centres_the_title() {
    assert_eq!(
        notification_frame(60, 16, 4),
        Some(NotificationFrame { block_width: 68, title_left: 21, title_right: 22 })
    );
    assert_eq!(
        notification_frame(0, 10, 1),
        Some(NotificationFrame { block_width: 21, title_left: 2, title_right: 3 })
    );
    assert_eq!(notification_frame(0, 10, 7), None);
    assert_eq!(
        notification_frame(0, 10, 6),
        Some(NotificationFrame { block_width: 21, title_left: 0, title_right: 0 })
    );
}

#[test]
fn check_for_updates_concludes_from_the_release() {
    let checker = UpdateChecker::new(Some("/home/op"), "1.5.0").unwrap();
    let cache = UpdateCache {
        last_check: 5,
        latest_version: Some("v1.4.0".to_string()),
        update_available: true,
    };
    let offline = checker.conclude_check(&cache, 100, None).unwrap();
    assert!(offline.update_available);
    assert!(offline.save.is_none());

    let newer = checker.conclude_check(&cache, 100, Some("v1.6.0")).unwrap();
    assert!(newer.update_available);
    let saved = newer.save.unwrap();
    assert_eq!(saved.last_check, 100);
    assert_eq!(saved.latest_version, Some("v1.6.0".to_string()));
    assert!(saved.update_available);

    let same = checker.conclude_check(&cache, 100, Some("1.5.0")).unwrap();
    assert!(!same.update_available);
    assert!(!same.save.unwrap().update_available);

    assert!(checker.conclude_check(&cache, 100, Some("nightly")).is_none());
}
