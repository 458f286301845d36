use teleport_helper::cli::{
    Animation, AnimateArgs, AwsArgs, Cli, Commands, DatabaseArgs, KubeArgs, LoginArgs,
    LogoutArgs, TerraArgs,
};
use teleport_helper::config::{Config, NameMap};
use teleport_helper::database::{
    choose_database, client_tunnel_args, compass_url, connect_args, db_request_args, db_user,
    display_name, listing_tunnel_args, may_connect_as_admin, mongo_user, parse_database_names,
    psql_url,
};
use teleport_helper::display::{
    bounce, center_content, frame_color, header_dashes, notification_lines, port_candidate,
    port_step, wave_delay, wave_height, PortStep, FALLBACK_PORT,
};
use teleport_helper::update::{UpdateCache, UpdateChecker};

fn checker(version: &str) -> UpdateChecker {
    UpdateChecker::new(Some("/home/op"), version).unwrap()
}

#[test]
fn default_configuration_lists_every_environment() {
    let config = Config::default_with("/var/tmp");
    assert_eq!(config.get_kube_cluster("dev"), Some(&"aslive-dev-eks-blue".to_string()));
    assert_eq!(config.get_kube_cluster("usprod"), Some(&"live-usprod-eks-blue".to_string()));
    assert_eq!(
        config.get_kube_cluster("corepggreen"),
        Some(&"platform-corepggreen-eks-green".to_string())
    );
    assert_eq!(config.get_kube_cluster("corepg"), None);
    assert_eq!(config.get_aws_account("prod"), Some(&"yl-production".to_string()));
    assert_eq!(config.get_aws_account("corepg"), Some(&"yl-coreplayground".to_string()));
    assert_eq!(config.get_aws_account("nowhere"), None);
    assert_eq!(config.list_kube_envs().len(), 9);
    assert_eq!(config.list_aws_envs().len(), 10);
    assert!(config.list_aws_envs().contains(&&"usstaging".to_string()));
    assert_eq!(config.teleport.proxy, "youlend.teleport.sh:443");
    assert_eq!(config.teleport.auth_type, "ad");
    assert_eq!(config.teleport.timeout_seconds, 15);
    assert_eq!(config.paths.kubectl, "kubectl");
    assert_eq!(config.paths.aws_cli, "aws");
    assert_eq!(config.paths.temp_dir, "/var/tmp");
}

#[test]
fn name_map_replaces_the_value_of_a_name() {
    let mut map = NameMap::new();
    assert_eq!(map.len(), 0);
    assert_eq!(map.get("a"), None);
    map.insert("a".to_string(), "1".to_string());
    map.insert("b".to_string(), "2".to_string());
    map.insert("a".to_string(), "3".to_string());
    assert_eq!(map.len(), 2);
    assert_eq!(map.get("a"), Some(&"3".to_string()));
    assert_eq!(map.get("b"), Some(&"2".to_string()));
    assert_eq!(map.keys(), vec![&"a".to_string(), &"b".to_string()]);
    assert_eq!(map.get("c"), None);
}

#[test]
fn configuration_lies_below_the_home_directory() {
    assert_eq!(
        Config::get_config_path(Some("/home/op")),
        Some("/home/op/.config/th/config.toml".to_string())
    );
    assert_eq!(Config::get_config_path(None), None);
}

#[test]
fn commands_that_talk_to_teleport_need_its_tools() {
    let with = |command: Option<Commands>| Cli { help: false, command };
    assert!(with(Some(Commands::Kube(KubeArgs { help: false, environment: None })))
        .needs_teleport_tools());
    assert!(with(Some(Commands::Aws(AwsArgs {
        help: false,
        environment: None,
        sudo_flag: None
    })))
    .needs_teleport_tools());
    assert!(with(Some(Commands::Database(DatabaseArgs { help: false, target: None })))
        .needs_teleport_tools());
    assert!(with(Some(Commands::Login(LoginArgs { help: false }))).needs_teleport_tools());
    assert!(with(Some(Commands::Logout(LogoutArgs { help: false }))).needs_teleport_tools());
    assert!(!with(Some(Commands::Terra(TerraArgs { help: false }))).needs_teleport_tools());
    assert!(!with(Some(Commands::Version)).needs_teleport_tools());
    assert!(!with(Some(Commands::Docs)).needs_teleport_tools());
    assert!(!with(Some(Commands::Quickstart)).needs_teleport_tools());
    assert!(!with(Some(Commands::Loader)).needs_teleport_tools());
    assert!(!with(Some(Commands::Update)).needs_teleport_tools());
    assert!(!with(Some(Commands::Changelog)).needs_teleport_tools());
    assert!(!with(Some(Commands::ClearUpdateCache)).needs_teleport_tools());
    assert!(!with(None).needs_teleport_tools());
    assert!(with(None).shows_help());
    assert!(Cli { help: true, command: Some(Commands::Docs) }.shows_help());
    assert!(!with(Some(Commands::Docs)).shows_help());
}

#[test]
fn sudo_is_the_single_letter_s() {
    let args = |flag: Option<&str>| AwsArgs {
        help: false,
        environment: Some("dev".to_string()),
        sudo_flag: flag.map(|f| f.to_string()),
    };
    assert!(args(Some("s")).wants_sudo());
    assert!(!args(Some("S")).wants_sudo());
    assert!(!args(Some("sudo")).wants_sudo());
    assert!(!args(None).wants_sudo());
}

#[test]
fn animation_is_chosen_by_name() {
    let args = |name: Option<&str>| AnimateArgs {
        help: false,
        animation: name.map(|n| n.to_string()),
    };
    assert_eq!(args(Some("yl")).choice(), Animation::Youlend);
    assert_eq!(args(Some("th")).choice(), Animation::Th);
    assert_eq!(args(None).choice(), Animation::Th);
    assert_eq!(args(Some("other")).choice(), Animation::Unknown);
}

#[test]
fn update_checker_remembers_in_the_home_directory() {
    let c = checker("1.5.0");
    assert_eq!(c.cache_path, "/home/op/.th_update_check");
    assert_eq!(c.get_current_version(), "1.5.0");
    assert!(UpdateChecker::new(None, "1.5.0").is_none());
    let copy = c.clone_for_background();
    assert_eq!(copy.cache_path, c.cache_path);
    assert_eq!(copy.current_version, c.current_version);
    let cache = UpdateCache::default();
    assert_eq!(cache.last_check, 0);
    assert_eq!(cache.latest_version, None);
    assert!(!cache.update_available);
}

#[test]
fn releases_are_ordered_as_versions() {
    let c = checker("1.5.0");
    assert_eq!(c.is_newer("v1.6.0"), Some(true));
    assert_eq!(c.is_newer("1.6.0"), Some(true));
    assert_eq!(c.is_newer("vv1.5.1"), Some(true));
    assert_eq!(c.is_newer("v1.5.0"), Some(false));
    assert_eq!(c.is_newer("v1.4.9"), Some(false));
    assert_eq!(c.is_newer("v1.10.0"), Some(true));
    assert_eq!(c.is_newer("v1.5.0-rc1"), Some(false));
    assert_eq!(c.is_newer("latest"), None);
    assert_eq!(c.is_newer("v1.5"), None);
    assert_eq!(c.is_newer(""), None);
    assert_eq!(checker("1.10.0").is_newer("v1.9.0"), Some(false));
    assert_eq!(checker("not a version").is_newer("v1.6.0"), None);
}

#[test]
fn cache_answers_for_a_day() {
    let c = checker("1.5.0");
    let cache = |last_check: u64| UpdateCache {
        last_check,
        latest_version: None,
        update_available: false,
    };
    assert!(c.cache_answers(&cache(1000), 1000, 86400));
    assert!(c.cache_answers(&cache(1000), 1000 + 86399, 86400));
    assert!(!c.cache_answers(&cache(1000), 1000 + 86400, 86400));
    assert!(!c.cache_answers(&cache(0), 10, 86400));
    assert!(!c.cache_answers(&cache(2000), 1000, 86400));
    let fresh = c.refreshed_cache(77, "v1.6.0", true);
    assert_eq!(fresh.last_check, 77);
    assert_eq!(fresh.latest_version, Some("v1.6.0".to_string()));
    assert!(fresh.update_available);
}

#[test]
fn operator_is_told_of_a_newer_release() {
    let c = checker("1.5.0");
    let newer = UpdateCache {
        last_check: 1,
        latest_version: Some("v1.6.0".to_string()),
        update_available: true,
    };
    assert_eq!(
        c.should_show_update_notification(&newer),
        Some(
            "📦 Update available: 1.5.0 → v1.6.0 (run `th update` or `th changelog` for details)"
                .to_string()
        )
    );
    let same = UpdateCache { update_available: false, ..c.refreshed_cache(1, "v1.5.0", false) };
    assert_eq!(c.should_show_update_notification(&same), None);
    let unnamed = UpdateCache { last_check: 1, latest_version: None, update_available: true };
    assert_eq!(c.should_show_update_notification(&unnamed), None);
    assert_eq!(c.should_show_update_notification(&UpdateCache::default()), None);
}

#[test]
fn changelog_is_headed_by_the_versions() {
    let c = checker("1.5.0");
    assert_eq!(c.changelog("v1.6.0", "notes", true), "## 1.5.0 → v1.6.0\n\nnotes");
    assert_eq!(
        c.changelog("v1.5.0", "notes", false),
        "## Current Version: 1.5.0\n\nYou're running the latest version!\n\nnotes"
    );
}

#[test]
fn binary_is_picked_for_the_platform() {
    assert_eq!(
        UpdateChecker::asset_pattern("macos", "aarch64"),
        Some("th-aarch64-apple-darwin".to_string())
    );
    assert_eq!(
        UpdateChecker::asset_pattern("macos", "x86_64"),
        Some("th-x86_64-apple-darwin".to_string())
    );
    assert_eq!(
        UpdateChecker::asset_pattern("macos", "riscv"),
        Some("th-x86_64-apple-darwin".to_string())
    );
    assert_eq!(
        UpdateChecker::asset_pattern("linux", "aarch64"),
        Some("th-aarch64-unknown-linux-gnu".to_string())
    );
    assert_eq!(UpdateChecker::asset_pattern("windows", "x86_64"), Some("th-x86_64.exe".to_string()));
    assert_eq!(UpdateChecker::asset_pattern("freebsd", "x86_64"), None);
    let names: Vec<String> =
        ["th-aarch64-apple-darwin", "th", "th-x86_64-unknown-linux-gnu.tar", "th.exe"]
            .iter()
            .map(|s| s.to_string())
            .collect();
    assert_eq!(UpdateChecker::find_binary_asset(&names, "th-x86_64-unknown-linux-gnu"), Some(2));
    assert_eq!(UpdateChecker::find_binary_asset(&names, "th-sparc"), Some(1));
    assert_eq!(UpdateChecker::find_binary_asset(&names[..1].to_vec(), "th-sparc"), None);
    assert_eq!(UpdateChecker::find_binary_asset(&Vec::new(), "th"), None);
}

#[test]
fn database_users_and_names() {
    assert_eq!(mongo_user("mongodb-YLUSProd-Cluster-1"), "teleport-usprod");
    assert_eq!(mongo_user("mongodb-YLProd-Cluster-1"), "teleport-prod");
    assert_eq!(mongo_user("mongodb-YLSandbox-Cluster-1"), "teleport-sandbox");
    assert_eq!(mongo_user("anything"), "teleport-default");
    assert_eq!(display_name(""), "Mongo databases");
    assert_eq!(display_name("rds-core"), "rds-core");
    assert!(may_connect_as_admin("Roles: dev, sudo_teleport_rds_write_role"));
    assert!(!may_connect_as_admin("Roles: dev"));
    assert_eq!(db_user(true, true), "tf_sudo_teleport_rds_user");
    assert_eq!(db_user(true, false), "tf_teleport_rds_read_user");
    assert_eq!(db_user(false, true), "tf_teleport_rds_read_user");
}

#[test]
fn database_command_lines_carry_the_port() {
    assert_eq!(
        listing_tunnel_args("rds-core", 50123),
        vec![
            "proxy",
            "db",
            "rds-core",
            "--db-user=tf_teleport_rds_read_user",
            "--db-name=postgres",
            "--port=50123",
            "--tunnel"
        ]
    );
    assert_eq!(psql_url(40000), "postgres://tf_teleport_rds_read_user@localhost:40000/postgres");
    assert_eq!(
        connect_args("rds-core", "ledger", "tf_teleport_rds_read_user"),
        vec!["db", "connect", "rds-core", "--db-user=tf_teleport_rds_read_user", "--db-name=ledger"]
    );
    assert_eq!(
        client_tunnel_args("rds-core", "ledger", "u", 59999),
        vec!["proxy", "db", "rds-core", "--db-name=ledger", "--port=59999", "--tunnel", "--db-user=u"]
    );
    assert_eq!(compass_url(0), "mongodb://localhost:0/?directConnection=true");
    assert_eq!(
        db_request_args("atlas-read-only", "look"),
        vec![
            "request",
            "create",
            "--roles",
            "atlas-read-only",
            "--max-duration",
            "6h",
            "--reason",
            "look"
        ]
    );
}

#[test]
fn database_choice_falls_back_on_postgres() {
    assert_eq!(parse_database_names(" postgres \n\nledger\n   \n"), vec!["postgres", "ledger"]);
    let names = vec!["ledger".to_string(), "audit".to_string()];
    assert_eq!(choose_database("2", &names), Some("audit".to_string()));
    assert_eq!(choose_database("", &names), Some("postgres".to_string()));
    assert_eq!(choose_database("9", &names), Some("postgres".to_string()));
    assert_eq!(choose_database("0", &names), Some("postgres".to_string()));
    assert_eq!(choose_database("x", &names), None);
}

#[test]
fn content_is_centred_in_the_terminal() {
    assert_eq!(center_content(100, Some(80)), " ".repeat(10));
    assert_eq!(center_content(100, None), " ".repeat(17));
    assert_eq!(center_content(80, Some(80)), "");
    assert_eq!(center_content(10, Some(1000)), "");
    assert_eq!(center_content(81, Some(80)), "");
}

#[test]
fn header_has_fifty_two_dashes_for_five_bytes() {
    assert_eq!(header_dashes(5), (26, 26));
    assert_eq!(header_dashes(0), (26, 26));
    assert_eq!(header_dashes(6), (25, 26));
    assert_eq!(header_dashes(16), (20, 21));
    assert_eq!(header_dashes(55), (1, 1));
    assert_eq!(header_dashes(57), (1, 1));
    assert_eq!(header_dashes(usize::MAX), (1, 1));
    for len in 0..200usize {
        let available = 52usize.saturating_sub(len.saturating_sub(5));
        let available = if available < 2 { 2 } else { available };
        assert_eq!(header_dashes(len), (available / 2, available - available / 2));
    }
}

#[test]
fn animation_runs_through_the_greys() {
    let colors = [
        232, 233, 234, 235, 236, 237, 238, 239, 240, 241, 242, 243, 244, 245, 246, 247, 248, 249,
        250, 251, 252, 253, 254, 255, 254, 253, 252, 251, 250, 249, 248, 247, 246, 245, 244, 243,
        242, 241, 240, 239, 238, 237, 236, 235, 234, 233,
    ];
    for frame in 0..100usize {
        for line in 0..11usize {
            assert_eq!(frame_color(frame, line), colors[(frame + line) % colors.len()]);
        }
    }
}

#[test]
fn wave_is_highest_and_fastest_in_the_middle() {
    assert_eq!(wave_height(31), 7);
    assert_eq!(wave_height(0), 0);
    assert_eq!(wave_height(62), 0);
    assert_eq!(wave_delay(31), 5);
    assert_eq!(wave_delay(0), 30);
    assert_eq!(wave_delay(62), 30);
    for pos in 0..63usize {
        let dist = (pos as i32 - 31).abs();
        let mut height = 7 - dist * 7 / 31;
        if height < 0 {
            height = 0;
        }
        assert_eq!(wave_height(pos), height as usize);
        let delay = match dist * 10 / 31 {
            9..=10 => 30,
            8 => 20,
            6..=7 => 10,
            _ => 5,
        };
        assert_eq!(wave_delay(pos), delay);
    }
    assert_eq!(bounce(5, true), (6, true));
    assert_eq!(bounce(61, true), (62, true));
    assert_eq!(bounce(62, true), (62, false));
    assert_eq!(bounce(62, false), (61, false));
    assert_eq!(bounce(0, false), (0, true));
}

#[test]
fn notification_wraps_at_sixty_two_bytes() {
    let message = "A new version is available: 1.5.0 → 1.6.0\nRun 'th update' to upgrade or 'th changelog' for details";
    let lines = notification_lines(message);
    assert_eq!(
        lines,
        vec![
            "A new version is available: 1.5.0 → 1.6.0 Run 'th update' to",
            "upgrade or 'th changelog' for details"
        ]
    );
    assert!(notification_lines("").is_empty());
    assert!(notification_lines("   \n ").is_empty());
    assert_eq!(notification_lines("one"), vec!["one"]);
    let long = "x".repeat(70);
    assert!(notification_lines(&long).is_empty());
    assert_eq!(notification_lines(&format!("a {} b", long)), vec!["a".to_string(), long, "b".to_string()]);
}

#[test]
fn ports_are_drawn_between_forty_and_sixty_thousand() {
    let mut seen = std::collections::HashSet::new();
    for _ in 0..500 {
        let port = port_candidate();
        assert!((40000..60000).contains(&port));
        seen.insert(port);
    }
    assert!(seen.len() > 1);
    assert_eq!(port_step(0, 41000, false), PortStep::Use(41000));
    assert_eq!(port_step(99, 41000, false), PortStep::Use(41000));
    assert_eq!(port_step(0, 41000, true), PortStep::TryAgain);
    assert_eq!(port_step(98, 41000, true), PortStep::TryAgain);
    assert_eq!(port_step(99, 41000, true), PortStep::Use(FALLBACK_PORT));
    assert_eq!(FALLBACK_PORT, 50000);
}
