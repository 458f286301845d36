use regex::Regex;
use teleport_helper::exporter::{
    augment_exports, export_session, filter_exports, is_export_statement, parse_export_line,
    parse_exports, region_for, CredentialSet,
};

fn export_pattern() -> Regex {
    Regex::new(r"^[[:space:]]*export ").unwrap()
}

#[test]
fn export_grammar_agrees_with_the_pattern() {
    let lines = [
        "export A=1",
        "  export A=1",
        "\t\x0B\x0C\r export A=1",
        "\u{a0}export A=1",
        "\u{2003}export A=1",
        "export",
        "exportA=1",
        " export",
        "x export A=1",
        "",
        "   ",
        "export ",
        "Export A=1",
        "# export A=1",
        "\n export B",
    ];
    let re = export_pattern();
    for line in lines {
        assert_eq!(is_export_statement(line), re.is_match(line), "line {:?}", line);
    }
    assert!(is_export_statement("  export AWS_ACCESS_KEY_ID=AKIA"));
    assert!(!is_export_statement("Started proxy on 127.0.0.1"));
}

#[test]
fn filter_keeps_exactly_the_export_lines() {
    let content = "banner\n  export A=1\nWARNING: something\nexport B=2\n\nnoise export C=3\n";
    assert_eq!(filter_exports(content), "  export A=1\nexport B=2");
}

#[test]
fn filter_counts_n_of_n_plus_m() {
    let mut content = String::new();
    for i in 0..7 {
        content.push_str(&format!("noise {}\n", i));
        if i < 4 {
            content.push_str(&format!("  export KEY{}=v{}\n", i, i));
        }
    }
    let filtered = filter_exports(&content);
    let re = export_pattern();
    assert_eq!(filtered.lines().count(), 4);
    assert!(filtered.lines().all(|l| re.is_match(l)));
}

#[test]
fn filter_agrees_with_the_direct_pipeline() {
    let contents = [
        "",
        "\n",
        "no exports here\n",
        "  export A=1\r\n  export B=2\r\n",
        "export A=1",
        "x\n\u{a0}export A\n export B\r",
    ];
    let re = export_pattern();
    for content in contents {
        let expected: Vec<&str> = content.lines().filter(|l| re.is_match(l)).collect();
        assert_eq!(filter_exports(content), expected.join("\n"), "content {:?}", content);
    }
}

#[test]
fn region_follows_the_us_prefix() {
    assert_eq!(region_for("yl-usprod-foo"), "us-east-2");
    assert_eq!(region_for("yl-production"), "eu-west-1");
    assert_eq!(region_for("yl-us"), "us-east-2");
    assert_eq!(region_for("yl-u"), "eu-west-1");
    assert_eq!(region_for(""), "eu-west-1");
    assert_eq!(region_for("xyl-usprod"), "eu-west-1");
}

#[test]
fn augment_appends_account_role_and_region() {
    assert_eq!(
        augment_exports("export A=1", "yl-usstaging", "sudo_usstaging"),
        "export A=1\nexport ACCOUNT=yl-usstaging\nexport ROLE=sudo_usstaging\nexport AWS_DEFAULT_REGION=us-east-2\n"
    );
    assert_eq!(
        augment_exports("", "yl-admin", "sudo_admin"),
        "\nexport ACCOUNT=yl-admin\nexport ROLE=sudo_admin\nexport AWS_DEFAULT_REGION=eu-west-1\n"
    );
}

#[test]
fn export_line_splits_at_first_equals_and_strips_quotes() {
    assert_eq!(
        parse_export_line("  export AWS_CA_BUNDLE=\"/tmp/ca=x.pem\"  "),
        Some(("AWS_CA_BUNDLE".to_string(), "/tmp/ca=x.pem".to_string()))
    );
    assert_eq!(parse_export_line("export A="), Some(("A".to_string(), "".to_string())));
    assert_eq!(parse_export_line("export A=\"\"\""), Some(("A".to_string(), "".to_string())));
    assert_eq!(parse_export_line("export  A=1"), Some((" A".to_string(), "1".to_string())));
}

#[test]
fn line_that_does_not_parse_gives_nothing() {
    assert_eq!(parse_export_line("export NOVALUE"), None);
    assert_eq!(parse_export_line("A=1"), None);
    assert_eq!(parse_export_line("export"), None);
    assert_eq!(parse_export_line(""), None);
    assert_eq!(parse_export_line("exportA=1"), None);
    assert_eq!(parse_export_line("export =v"), None);
    assert_eq!(parse_export_line("export ="), None);
    assert_eq!(parse_export_line("export A=b\0c"), None);
    assert_eq!(parse_export_line("export A\0=b"), None);
}

#[test]
fn every_pair_can_be_set_in_an_environment() {
    let set = parse_exports("export =x\nexport A=1\nexport B\0=2\nexport C=\0\nexport D=a=b\n");
    assert_eq!(
        set.pairs,
        vec![("A".to_string(), "1".to_string()), ("D".to_string(), "a=b".to_string())]
    );
    for (key, value) in set.pairs.iter() {
        assert!(!key.is_empty() && !key.contains('=') && !key.contains('\0'));
        assert!(!value.contains('\0'));
    }
}

#[test]
fn unparsable_lines_are_skipped_not_fatal() {
    let set = parse_exports("export A=1\nexport BROKEN\ngarbage\nexport B=2\n");
    assert_eq!(
        set.pairs,
        vec![("A".to_string(), "1".to_string()), ("B".to_string(), "2".to_string())]
    );
    assert_eq!(set.len(), 2);
}

#[test]
fn later_pair_shadows_earlier() {
    let set = parse_exports("export A=1\nexport B=2\nexport A=3\n");
    assert_eq!(set.get("A"), Some("3".to_string()));
    assert_eq!(set.get("B"), Some("2".to_string()));
    assert_eq!(set.get("C"), None);
    assert_eq!(set.len(), 3);
}

#[test]
fn credential_set_grows_in_order() {
    let mut set = CredentialSet::new();
    assert_eq!(set.len(), 0);
    assert_eq!(set.get("A"), None);
    set.push("A".to_string(), "1".to_string());
    set.push("A".to_string(), "2".to_string());
    assert_eq!(set.len(), 2);
    assert_eq!(set.get("A"), Some("2".to_string()));
}

#[test]
fn end_to_end_export_of_two_credentials() {
    let written = "  export AWS_ACCESS_KEY_ID=AKIA...\n  export AWS_SECRET_ACCESS_KEY=xxx\n";
    let outcome = export_session(written, "yl-production", "prod");
    assert_eq!(
        outcome.artifact,
        "  export AWS_ACCESS_KEY_ID=AKIA...\n  export AWS_SECRET_ACCESS_KEY=xxx\nexport ACCOUNT=yl-production\nexport ROLE=prod\nexport AWS_DEFAULT_REGION=eu-west-1\n"
    );
    let env = outcome.credentials;
    assert_eq!(env.len(), 5);
    assert_eq!(env.get("AWS_ACCESS_KEY_ID"), Some("AKIA...".to_string()));
    assert_eq!(env.get("AWS_SECRET_ACCESS_KEY"), Some("xxx".to_string()));
    assert_eq!(env.get("ACCOUNT"), Some("yl-production".to_string()));
    assert_eq!(env.get("ROLE"), Some("prod".to_string()));
    assert_eq!(env.get("AWS_DEFAULT_REGION"), Some("eu-west-1".to_string()));
}

#[test]
fn export_session_drops_proxy_noise() {
    let written = "Started AWS proxy on http://127.0.0.1:54321.\n\nUse the following credentials:\n\n  export AWS_ACCESS_KEY_ID=abc\n  export AWS_SECRET_ACCESS_KEY=def\n  export AWS_CA_BUNDLE=/home/u/.tsh/ca.pem\n  export HTTPS_PROXY=http://127.0.0.1:54321\n";
    let outcome = export_session(written, "yl-usproduction", "usprod");
    assert_eq!(outcome.artifact.lines().count(), 7);
    assert_eq!(outcome.credentials.get("HTTPS_PROXY"), Some("http://127.0.0.1:54321".to_string()));
    assert_eq!(outcome.credentials.get("AWS_DEFAULT_REGION"), Some("us-east-2".to_string()));
}
