use teleport_helper::error::ThError;
use teleport_helper::session::artifact_path;
use teleport_helper::shell::{
    detect_shell, join_path, profile_name, sync_profile,
    unsync_profile, ShellIntegration, ShellType,
};

fn zsh() -> ShellIntegration {
    ShellIntegration::new(Some("/bin/zsh"), Some("/home/op")).unwrap()
}

fn direct_sync(content: &str, log_file: &str) -> String {
    let mut out: String = content
        .lines()
        .filter(|l| !l.starts_with("source /tmp/tsh_proxy_"))
        .map(|l| format!("{}\n", l))
        .collect();
    out.push_str(&format!("source {}\n", log_file));
    out
}

fn direct_unsync(content: &str) -> String {
    content
        .lines()
        .filter(|l| !l.starts_with("source /tmp/tsh_proxy_"))
        .map(|l| format!("{}\n", l))
        .collect()
}

fn is_related(line: &str) -> bool {
    line.starts_with("source /tmp/tsh_proxy_")
        || line.contains("# Added by th")
        || line.contains("yl_aws_credentials")
        || line.contains("TH_AWS_")
        || line.contains("export AWS_") && line.contains("teleport")
}

fn direct_cleanup(content: &str) -> String {
    content.lines().filter(|line| !is_related(line)).map(|line| format!("{}\n", line)).collect()
}

fn direct_sourcing(content: &str, file: &str) -> String {
    let new_line = format!("source {}", file);
    let gone = |l: &str| l.starts_with("source /tmp/tsh_proxy_") || l == new_line;
    let lines: Vec<&str> = content.lines().collect();
    let mut out = String::new();
    for (i, line) in lines.iter().enumerate() {
        let with_next = *line == "# Added by th" && i + 1 < lines.len() && gone(lines[i + 1]);
        if !gone(line) && !with_next {
            out.push_str(line);
            out.push('\n');
        }
    }
    out.push_str("# Added by th\n");
    out.push_str(&new_line);
    out.push('\n');
    out
}

fn profiles() -> Vec<&'static str> {
    vec![
        "",
        "\n",
        "export PATH=$PATH:/usr/local/bin\nalias k=kubectl\n",
        "alias k=kubectl",
        "source /tmp/tsh_proxy_yl-dev.log\n",
        "a\nsource /tmp/tsh_proxy_old.log\nb\n  source /tmp/tsh_proxy_indented.log\nc",
        "source /tmp/tshfoo\nsource /tmp/other\n",
        "x\r\ny\r\n",
        "# Added by th\nsource /tmp/yl_aws_credentials\nexport TH_AWS_X=1\nkeep me\n",
        "export AWS_PROFILE=teleport\nexport AWS_PROFILE=dev\n",
        "\n\n",
        "source /tmp/tshx\n",
        "echo source /tmp/x\n",
        "# Added by th\nsource /tmp/tsh_proxy_a.log\n# Added by th\nexport TH_AWS_X=1\n",
        "# Added by th\n",
        "source /tmp/x\nsource /tmp/x\n",
    ]
}

#[test]
fn shell_family_is_found_by_substring() {
    assert_eq!(detect_shell(Some("/bin/zsh")), ShellType::Zsh);
    assert_eq!(detect_shell(Some("/usr/local/bin/bash")), ShellType::Bash);
    assert_eq!(detect_shell(Some("/usr/bin/fish")), ShellType::Fish);
    assert_eq!(detect_shell(Some("/bin/sh")), ShellType::Unknown);
    assert_eq!(detect_shell(Some("")), ShellType::Unknown);
    assert_eq!(detect_shell(None), ShellType::Unknown);
    assert_eq!(detect_shell(Some("/opt/bash-to-zsh/bin/x")), ShellType::Zsh);
}

#[test]
fn each_family_has_its_profile() {
    assert_eq!(profile_name(ShellType::Zsh), ".zshrc");
    assert_eq!(profile_name(ShellType::Bash), ".bash_profile");
    assert_eq!(profile_name(ShellType::Fish), ".config/fish/config.fish");
    assert_eq!(profile_name(ShellType::Unknown), ".profile");
}

#[test]
fn join_path_agrees_with_std() {
    for dir in ["/home/op", "/home/op/", "", "/", "rel"] {
        for name in [".zshrc", ".config/fish/config.fish"] {
            let expected = std::path::Path::new(dir).join(name);
            assert_eq!(join_path(dir, name), expected.to_str().unwrap(), "{:?} {:?}", dir, name);
        }
    }
}

#[test]
fn integration_needs_a_home_directory() {
    let made = ShellIntegration::new(Some("/bin/fish"), Some("/home/op")).unwrap();
    assert_eq!(made.shell_type, ShellType::Fish);
    assert_eq!(made.profile_path, "/home/op/.config/fish/config.fish");
    match ShellIntegration::new(Some("/bin/zsh"), None) {
        Err(ThError::Shell(detail)) => assert_eq!(detail, "Could not determine home directory"),
        _ => panic!("expected a shell error"),
    }
}

#[test]
fn sync_agrees_with_the_direct_rewrite() {
    for profile in profiles() {
        for path in ["/tmp/tsh_proxy_yl-dev.log", "/tmp/tsh_proxy_yl-usprod.log"] {
            assert_eq!(sync_profile(profile, path), direct_sync(profile, path), "{:?}", profile);
        }
    }
}

#[test]
fn sync_replaces_earlier_source_lines() {
    let before = "alias k=kubectl\nsource /tmp/tsh_proxy_yl-dev.log\nexport A=1\n";
    assert_eq!(
        sync_profile(before, "/tmp/tsh_proxy_yl-admin.log"),
        "alias k=kubectl\nexport A=1\nsource /tmp/tsh_proxy_yl-admin.log\n"
    );
    assert_eq!(sync_profile("", "/tmp/tsh_proxy_a.log"), "source /tmp/tsh_proxy_a.log\n");
}

#[test]
fn sync_leaves_lines_of_other_things_alone() {
    let path = "/tmp/tsh_proxy_yl-dev.log";
    assert_eq!(
        sync_profile("source /tmp/tshx", path),
        "source /tmp/tshx\nsource /tmp/tsh_proxy_yl-dev.log\n"
    );
    assert_eq!(
        sync_profile("  source /tmp/tsh_proxy_indented.log\n", path),
        "  source /tmp/tsh_proxy_indented.log\nsource /tmp/tsh_proxy_yl-dev.log\n"
    );
    assert_eq!(unsync_profile("source /tmp/tshx\n"), "source /tmp/tshx\n");
    assert_eq!(
        unsync_profile("  source /tmp/tsh_proxy_indented.log\n"),
        "  source /tmp/tsh_proxy_indented.log\n"
    );
}

#[test]
fn sync_twice_leaves_one_source_line() {
    for profile in profiles() {
        let path = artifact_path("yl-dev");
        let once = sync_profile(profile, &path);
        let twice = sync_profile(&once, &path);
        let wanted = format!("source {}", path);
        assert_eq!(twice.lines().filter(|l| *l == wanted).count(), 1, "{:?}", profile);
        assert_eq!(twice.lines().filter(|l| l.starts_with("source /tmp/tsh_proxy_")).count(), 1);
        assert_eq!(once.lines().filter(|l| *l == wanted).count(), 1);
    }
}

#[test]
fn unsync_agrees_with_the_direct_removal() {
    for profile in profiles() {
        assert_eq!(unsync_profile(profile), direct_unsync(profile), "{:?}", profile);
    }
}

#[test]
fn unsync_after_sync_keeps_unrelated_lines_unchanged() {
    let before = "export PATH=/x\n\talias k=kubectl  \n\n# comment\n";
    let synced = sync_profile(before, &artifact_path("yl-staging"));
    assert_eq!(unsync_profile(&synced), before);
    assert_eq!(unsync_profile(&sync_profile("", &artifact_path("x"))), "");
    assert_eq!(unsync_profile(&sync_profile("a\n\n", &artifact_path("x"))), "a\n\n");
    for profile in profiles() {
        if profile.contains('\r') {
            continue;
        }
        let round = unsync_profile(&sync_profile(profile, &artifact_path("yl-dev")));
        let before: Vec<&str> =
            profile.lines().filter(|l| !l.starts_with("source /tmp/tsh_proxy_")).collect();
        assert_eq!(round.lines().collect::<Vec<&str>>(), before, "{:?}", profile);
    }
}

#[test]
fn unsync_after_sync_loses_a_carriage_return() {
    let synced = sync_profile("a\r\r\nb\n", &artifact_path("yl-dev"));
    assert_eq!(unsync_profile(&synced), "a\nb\n");
}

#[test]
fn sourcing_agrees_with_the_direct_rewrite() {
    let shell = zsh();
    for profile in profiles() {
        for file in ["/tmp/tsh_proxy_yl-dev.log", "/tmp/x", "/tmp/yl_aws_credentials"] {
            assert_eq!(
                shell.source_aws_credentials(profile, file),
                direct_sourcing(profile, file),
                "{:?} {:?}",
                profile,
                file
            );
        }
    }
}

#[test]
fn sourcing_replaces_the_line_of_an_earlier_session() {
    let shell = zsh();
    let with_a = shell.source_aws_credentials("alias k=kubectl\n", "/tmp/tsh_proxy_A.log");
    assert_eq!(with_a, "alias k=kubectl\n# Added by th\nsource /tmp/tsh_proxy_A.log\n");
    let with_b = shell.source_aws_credentials(&with_a, "/tmp/tsh_proxy_B.log");
    assert_eq!(with_b, "alias k=kubectl\n# Added by th\nsource /tmp/tsh_proxy_B.log\n");
}

#[test]
fn sourcing_puts_the_line_in_whatever_the_profile_mentions() {
    let shell = zsh();
    assert_eq!(
        shell.source_aws_credentials("echo source /tmp/x", "/tmp/x"),
        "echo source /tmp/x\n# Added by th\nsource /tmp/x\n"
    );
}

#[test]
fn sourcing_twice_changes_nothing() {
    let shell = zsh();
    for profile in profiles() {
        if profile.contains('\r') {
            continue;
        }
        for file in ["/tmp/tsh_proxy_yl-dev.log", "/tmp/x"] {
            let once = shell.source_aws_credentials(profile, file);
            assert_eq!(shell.source_aws_credentials(&once, file), once, "{:?}", profile);
            let wanted = format!("source {}", file);
            assert_eq!(once.lines().filter(|l| *l == wanted).count(), 1);
        }
    }
}

#[test]
fn sourcing_keeps_the_marker_of_other_additions() {
    let shell = zsh();
    let before = "# Added by th\nexport TH_AWS_X=1\n# Added by th\nsource /tmp/tsh_proxy_a.log\n";
    assert_eq!(
        shell.source_aws_credentials(before, "/tmp/tsh_proxy_b.log"),
        "# Added by th\nexport TH_AWS_X=1\n# Added by th\nsource /tmp/tsh_proxy_b.log\n"
    );
}

#[test]
fn cleanup_after_sourcing_gives_back_the_earlier_lines() {
    let shell = zsh();
    for before in ["", "alias k=kubectl\n", "a\n\nb\n", "no newline at the end"] {
        let sourced = shell.source_aws_credentials(before, &artifact_path("yl-dev"));
        let cleaned = shell.cleanup_profile(&sourced);
        assert_eq!(
            cleaned.lines().collect::<Vec<&str>>(),
            before.lines().collect::<Vec<&str>>(),
            "{:?}",
            before
        );
        assert_eq!(cleaned, shell.cleanup_profile(before));
    }
    let sourced = shell.source_aws_credentials("", "/tmp/tsh_proxy_yl-dev.log");
    assert_eq!(shell.cleanup_profile(&sourced), "");
}

#[test]
fn reverses_are_idempotent() {
    let shell = zsh();
    for profile in profiles() {
        if profile.contains('\r') {
            continue;
        }
        let once = unsync_profile(profile);
        assert_eq!(unsync_profile(&once), once);
        let cleaned = shell.cleanup_profile(profile);
        assert_eq!(shell.cleanup_profile(&cleaned), cleaned);
    }
}

#[test]
fn cleanup_agrees_with_the_direct_cleanup() {
    let shell = zsh();
    for profile in profiles() {
        assert_eq!(shell.cleanup_profile(profile), direct_cleanup(profile), "{:?}", profile);
    }
    assert_eq!(
        shell.cleanup_profile("keep\n# Added by th\nsource /tmp/yl_aws_credentials_1\nalso keep"),
        "keep\nalso keep\n"
    );
}

#[test]
fn related_lines_are_recognised() {
    let shell = zsh();
    assert!(shell.is_th_related_line("# Added by th"));
    assert!(shell.is_th_related_line("source /tmp/yl_aws_credentials"));
    assert!(shell.is_th_related_line("export TH_AWS_ROLE=x"));
    assert!(shell.is_th_related_line("export AWS_CA_BUNDLE=/home/u/.tsh/teleport.pem"));
    assert!(!shell.is_th_related_line("export AWS_PROFILE=dev"));
    assert!(!shell.is_th_related_line("teleport is nice"));
    assert!(shell.is_th_related_line("source /tmp/tsh_proxy_yl-dev.log"));
    assert!(!shell.is_th_related_line("  source /tmp/tsh_proxy_yl-dev.log"));
    assert!(!shell.is_th_related_line("source /tmp/tshx"));
    assert!(!shell.is_th_related_line(""));
}

#[test]
fn addition_is_written_once() {
    let shell = zsh();
    let line = "source /tmp/yl_aws_credentials";
    let addition = shell.add_to_profile("alias k=kubectl\n", line);
    assert_eq!(addition, Some("\n# Added by th\nsource /tmp/yl_aws_credentials\n".to_string()));
    let profile = format!("alias k=kubectl\n{}", addition.unwrap());
    assert_eq!(shell.add_to_profile(&profile, line), None);
    assert_eq!(shell.add_to_profile("anything", ""), None);
    assert_eq!(
        shell.source_aws_credentials("", "/tmp/yl_aws_credentials"),
        "# Added by th\nsource /tmp/yl_aws_credentials\n"
    );
}

#[test]
fn cleanup_after_addition_restores_the_closed_profile() {
    let shell = zsh();
    for existing in ["", "a", "a\n", "a\nb", "x\r\ny\r\n", "\n"] {
        let content = "source /tmp/yl_aws_credentials";
        let added = shell.add_to_profile(existing, content).unwrap();
        let with_addition = format!("{}{}", existing, added);
        let closed = format!("{}\n", existing);
        assert_eq!(
            shell.cleanup_profile(&with_addition),
            shell.cleanup_profile(&closed),
            "{:?}",
            existing
        );
    }
}

#[test]
fn temp_credential_files_are_picked_by_prefix() {
    assert!(ShellIntegration::is_temp_credential_file("yl_aws_credentials"));
    assert!(ShellIntegration::is_temp_credential_file("tsh_proxy_yl-dev.log"));
    assert!(ShellIntegration::is_temp_credential_file("admin_token"));
    assert!(!ShellIntegration::is_temp_credential_file("yl"));
    assert!(!ShellIntegration::is_temp_credential_file("tsh"));
    assert!(!ShellIntegration::is_temp_credential_file("administrator"));
    assert!(!ShellIntegration::is_temp_credential_file(""));
    let names: Vec<String> =
        ["a", "yl_1", "x_tsh_", "tsh_2", "admin_3", "adm"].iter().map(|s| s.to_string()).collect();
    assert_eq!(ShellIntegration::cleanup_temp_files(&names), vec!["yl_1", "tsh_2", "admin_3"]);
}

#[test]
fn shell_commands_follow_the_family() {
    let fish = ShellIntegration::new(Some("fish"), Some("/h")).unwrap();
    let bash = ShellIntegration::new(Some("bash"), Some("/h")).unwrap();
    let other = ShellIntegration::new(None, Some("/h")).unwrap();
    assert_eq!(fish.execute_in_shell("env"), ("fish", vec!["-c".to_string(), "env".to_string()]));
    assert_eq!(bash.execute_in_shell("ls -l").0, "bash");
    assert_eq!(zsh().execute_in_shell("x").0, "zsh");
    assert_eq!(other.execute_in_shell("x").0, "sh");
    assert_eq!(fish.unset_env_var("ROLE"), "set -e ROLE");
    assert_eq!(bash.unset_env_var("ROLE"), "unset ROLE");
    assert_eq!(
        fish.set_env_var("", "A", "1"),
        Some("\n# Added by th\nset -x A 1\n".to_string())
    );
    assert_eq!(
        bash.set_env_var("", "A", "1"),
        Some("\n# Added by th\nexport A=1\n".to_string())
    );
    assert_eq!(bash.set_env_var("export A=1\n", "A", "1"), None);
}

#[test]
fn features_depend_on_the_family() {
    let fish = ShellIntegration::new(Some("fish"), Some("/h")).unwrap();
    let other = ShellIntegration::new(Some("/bin/sh"), Some("/h")).unwrap();
    assert!(zsh().supports_feature("colors"));
    assert!(zsh().supports_feature("completion"));
    assert!(zsh().supports_feature("functions"));
    assert!(fish.supports_feature("colors"));
    assert!(!fish.supports_feature("completion"));
    assert!(!other.supports_feature("colors"));
    assert!(!other.supports_feature("functions"));
    assert!(!zsh().supports_feature("telepathy"));
    assert!(!zsh().supports_feature(""));
}

#[test]
fn env_output_is_split_at_the_first_equals() {
    let vars = zsh().get_shell_env("HOME=/home/op\nEMPTY=\nnot a variable\nA=b=c\n=x\nHOME=/later\n");
    assert_eq!(
        vars,
        vec![
            ("HOME".to_string(), "/home/op".to_string()),
            ("EMPTY".to_string(), "".to_string()),
            ("A".to_string(), "b=c".to_string()),
            ("".to_string(), "x".to_string()),
            ("HOME".to_string(), "/later".to_string()),
        ]
    );
}
