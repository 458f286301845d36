use teleport_helper::config::Config;
use teleport_helper::roles::{
    elevated_role, extract_default_role, extract_roles_section, find_env_for_account, list_roles,
    request_args, request_id, select_regular_role, select_sudo_role,
};

const LOGIN_OUTPUT: &str = "Available AWS roles:\n\
Role Name      Role ARN\n\
-------------- ---------------------------------------------\n\
dev            arn:aws:iam::123456789012:role/dev\n\
sudo_dev       arn:aws:iam::123456789012:role/sudo_dev\n\
\n\
ERROR: --aws-role flag is required\n\
trailing noise\n";

fn direct_section(output: &str) -> String {
    let mut inside = false;
    let mut kept = Vec::new();
    for line in output.lines() {
        if line.contains("Available AWS roles:") {
            inside = true;
            kept.push(line);
            continue;
        }
        if line.contains("ERROR: --aws-role flag is required") {
            break;
        }
        if inside && !line.contains("ERROR:") {
            kept.push(line);
        }
    }
    kept.join("\n")
}

fn direct_roles(section: &str) -> Vec<String> {
    section
        .lines()
        .skip(2)
        .filter(|line| !line.trim().is_empty())
        .filter(|line| !line.contains("---------"))
        .map(|line| line.split_whitespace().next().unwrap_or(line).to_string())
        .filter(|role| !role.is_empty())
        .collect()
}

fn direct_default_role(output: &str) -> Option<String> {
    for line in output.lines() {
        if line.contains("arn:aws:iam::") {
            if let Some(start) = line.find("arn:aws:iam::") {
                let part = &line[start..];
                let arn = if let Some(end) = part.find(char::is_whitespace) {
                    &part[..end]
                } else {
                    part.trim()
                };
                if let Some(role) = arn.split('/').last() {
                    return Some(role.to_string());
                }
            }
        }
    }
    None
}

fn outputs() -> Vec<&'static str> {
    vec![
        LOGIN_OUTPUT,
        "",
        "no roles at all\n",
        "ERROR: --aws-role flag is required\nAvailable AWS roles:\nx\n",
        "junk\nAvailable AWS roles:\nhead\nERROR: other\nrole1 arn\nAvailable AWS roles:\nrole2\n",
        "Using arn:aws:iam::1:role/path/to/admin for login\n",
        "arn:aws:iam::1:role/last",
        "x arn:aws:iam::noslash\tmore",
        "a\nb\n   \n--------- ---\n  spaced   out  \n",
    ]
}

#[test]
fn roles_section_runs_from_header_to_the_required_flag_error() {
    assert_eq!(
        extract_roles_section(LOGIN_OUTPUT),
        "Available AWS roles:\nRole Name      Role ARN\n-------------- ---------------------------------------------\ndev            arn:aws:iam::123456789012:role/dev\nsudo_dev       arn:aws:iam::123456789012:role/sudo_dev\n"
    );
    for output in outputs() {
        assert_eq!(extract_roles_section(output), direct_section(output), "{:?}", output);
    }
}

#[test]
fn roles_are_the_first_words_below_the_two_heading_lines() {
    let section = extract_roles_section(LOGIN_OUTPUT);
    assert_eq!(list_roles(&section), vec!["dev", "sudo_dev"]);
    for output in outputs() {
        assert_eq!(list_roles(output), direct_roles(output), "{:?}", output);
    }
    assert!(list_roles("one\ntwo").is_empty());
    assert!(list_roles("").is_empty());
}

#[test]
fn default_role_is_the_end_of_the_first_arn() {
    assert_eq!(extract_default_role(LOGIN_OUTPUT), Some("dev".to_string()));
    assert_eq!(extract_default_role("nothing here"), None);
    for output in outputs() {
        assert_eq!(extract_default_role(output), direct_default_role(output), "{:?}", output);
    }
}

#[test]
fn roles_follow_the_environment() {
    assert_eq!(select_regular_role("dev"), "dev");
    assert_eq!(select_regular_role("corepg"), "coreplayground");
    assert_eq!(select_regular_role("usprod"), "usprod");
    assert_eq!(select_sudo_role("dev"), "sudo_dev");
    assert_eq!(select_sudo_role("corepg"), "sudo_coreplayground");
    assert_eq!(select_sudo_role("staging"), "sudo_staging");
}

#[test]
fn elevated_role_depends_on_the_application() {
    assert_eq!(elevated_role("yl-production"), "sudo_prod_role");
    assert_eq!(elevated_role("yl-usproduction"), "sudo_usprod_role");
    assert_eq!(elevated_role(""), "sudo_usprod_role");
}

#[test]
fn request_id_is_the_third_word_of_its_line() {
    assert_eq!(
        request_id("Creating request...\nRequest ID: 0191-abcd\nUsername: op\n"),
        Some("0191-abcd".to_string())
    );
    assert_eq!(request_id("Request ID:\n"), None);
    assert_eq!(request_id("Request ID:x y\nRequest ID: later\n"), Some("y".to_string()));
    assert_eq!(request_id("Request ID:x\nRequest ID: later\n"), None);
    assert_eq!(request_id("nothing"), None);
}

#[test]
fn request_is_made_with_role_and_reason() {
    assert_eq!(
        request_args("sudo_prod_role", "deploy fix"),
        vec!["request", "create", "--roles", "sudo_prod_role", "--reason", "deploy fix"]
    );
}

#[test]
fn environment_is_found_by_its_account() {
    let config = Config::default_with("/tmp");
    assert_eq!(find_env_for_account(&config, "yl-development"), "dev");
    assert_eq!(find_env_for_account(&config, "yl-coreplayground"), "corepg");
    assert_eq!(find_env_for_account(&config, "yl-nowhere"), "unknown");
}
