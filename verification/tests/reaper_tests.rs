use teleport_helper::reaper::{
    credential_env_names, is_session_artifact, kill_set, plan_reap, stale_artifacts,
};

fn direct_kill_set(listing: &str) -> Vec<String> {
    let mut pids = Vec::new();
    for line in listing.lines() {
        if line.contains("tsh proxy aws") && !line.contains("grep") {
            if let Some(pid) = line.split_whitespace().nth(1) {
                pids.push(pid.to_string());
            }
        }
    }
    for line in listing.lines() {
        if line.contains("tsh proxy db") && !line.contains("grep") {
            if let Some(pid) = line.split_whitespace().nth(1) {
                pids.push(pid.to_string());
            }
        }
    }
    pids
}

const LISTING: &str = "USER   PID  %CPU %MEM COMMAND\n\
op    101   0.0  0.1 tsh proxy aws --app yl-dev\n\
op    102   0.0  0.1 /usr/bin/vim notes.txt\n\
op    103   0.0  0.1 tsh proxy db --tunnel --port=50123 rds-1\n\
op    104   0.0  0.0 grep tsh proxy aws\n\
op    105   0.0  0.0 grep --color=auto tsh proxy db\n\
root  106   0.0  0.0 ps aux\n\
op    107   0.0  0.1 tsh proxy aws --app yl-usprod\n\
op    108   0.0  0.1 tsh proxy kube\n";

#[test]
fn kill_set_holds_exactly_the_proxies() {
    assert_eq!(kill_set(LISTING), vec!["101", "107", "103"]);
}

#[test]
fn kill_set_never_holds_the_search_itself() {
    let pids = kill_set(LISTING);
    assert!(!pids.contains(&"104".to_string()));
    assert!(!pids.contains(&"105".to_string()));
    assert!(!pids.contains(&"106".to_string()));
    assert!(kill_set("op 9 grep tsh proxy aws\n").is_empty());
}

#[test]
fn kill_set_agrees_with_the_direct_scan() {
    let listings = [
        LISTING,
        "",
        "tsh proxy aws\n",
        "x 1 tsh proxy aws and tsh proxy db\n",
        "   lead  77\ttsh proxy db\r\n",
        "onlyoneword_tsh proxy aws\n",
    ];
    for listing in listings {
        assert_eq!(kill_set(listing), direct_kill_set(listing), "{:?}", listing);
    }
    assert_eq!(kill_set("x 1 tsh proxy aws and tsh proxy db\n"), vec!["1", "1"]);
}

#[test]
fn artifacts_are_picked_by_prefix() {
    assert!(is_session_artifact("yl_aws_credentials"));
    assert!(is_session_artifact("yl"));
    assert!(is_session_artifact("tsh_proxy_yl-dev.log"));
    assert!(is_session_artifact("tshark.pcap"));
    assert!(is_session_artifact("admin_token"));
    assert!(!is_session_artifact("admin"));
    assert!(!is_session_artifact("my_yl_file"));
    assert!(!is_session_artifact(""));
    let names: Vec<String> =
        ["notes", "yl-1", "tsh_x", "admin", "admin_x"].iter().map(|s| s.to_string()).collect();
    assert_eq!(stale_artifacts(&names), vec!["yl-1", "tsh_x", "admin_x"]);
}

#[test]
fn logout_unsets_the_seven_credential_variables() {
    assert_eq!(
        credential_env_names(),
        vec![
            "AWS_ACCESS_KEY_ID",
            "AWS_SECRET_ACCESS_KEY",
            "AWS_CA_BUNDLE",
            "HTTPS_PROXY",
            "ACCOUNT",
            "ROLE",
            "AWS_DEFAULT_REGION"
        ]
    );
}

#[test]
fn plan_works_each_part_out_on_its_own() {
    let names: Vec<String> = ["tsh_proxy_a.log", "keep"].iter().map(|s| s.to_string()).collect();
    let full = plan_reap(&names, Some("a\nsource /tmp/tsh_proxy_a.log\nb\n"), Some(LISTING));
    assert_eq!(full.remove_files, vec!["tsh_proxy_a.log"]);
    assert_eq!(full.profile, Some("a\nb\n".to_string()));
    assert_eq!(full.unset_vars.len(), 7);
    assert_eq!(full.kill_pids, vec!["101", "107", "103"]);

    assert_eq!(full.kill_batch(), Some(vec!["101".to_string(), "107".into(), "103".into()]));

    let bare = plan_reap(&Vec::new(), None, None);
    assert_eq!(bare.kill_batch(), None);
    assert!(bare.remove_files.is_empty());
    assert_eq!(bare.profile, None);
    assert_eq!(bare.unset_vars.len(), 7);
    assert!(bare.kill_pids.is_empty());

    let no_profile = plan_reap(&names, None, Some(LISTING));
    assert_eq!(no_profile.remove_files, vec!["tsh_proxy_a.log"]);
    assert_eq!(no_profile.kill_pids.len(), 3);
}
