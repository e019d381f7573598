use kurumi_containerd::config::environment_file::{parse_environment, EnvironmentError, LineFault};
use kurumi_containerd::config::identity::assign_new_uuid;
use kurumi_containerd::config::model::{
    default_hostname, default_init, default_stop_timeout, protocol_name, AndroidConfig, BindMount,
    Config, ContainerConfig, Ipv4Address, NetworkConfig, NetworkMode, PortForward, Protocol,
    ResourceConfig, RuntimeConfig, SecurityConfig,
};
use kurumi_containerd::config::names::{
    safe_container_path, valid_env_key, valid_interface_name, valid_name,
};
use kurumi_containerd::config::resolve::{absolute_workdir, resolution_base};
use kurumi_containerd::config::validate::{ConfigError, EnvironmentSource, HostFacts};
use kurumi_containerd::container::environment::container_environment;
use kurumi_containerd::edition::Edition;
use kurumi_containerd::env::Environment;

fn test_config() -> Config {
    Config {
        runtime: RuntimeConfig {
            workdir: "/run/kurumi-containerd".to_owned(),
            stop_timeout_seconds: default_stop_timeout(),
        },
        container: ContainerConfig {
            name: "test".to_owned(),
            uuid: None,
            rootfs: Some("/srv/rootfs".to_owned()),
            rootfs_image: None,
            hostname: default_hostname(),
            init: default_init(),
            foreground: false,
            volatile: false,
            network: NetworkMode::default(),
            network_options: NetworkConfig::default(),
            android: AndroidConfig::default(),
            resources: ResourceConfig::default(),
            security: SecurityConfig::default(),
            mounts: Vec::new(),
            environment: Environment::new(),
            environment_file: None,
        },
    }
}

fn facts(config: &Config) -> HostFacts {
    HostFacts {
        rootfs_is_directory: true,
        image_exists: true,
        dns: vec![true; config.container.network_options.dns.len()],
        init_exists: true,
        sources: vec![true; config.container.mounts.len()],
        environment_file: EnvironmentSource::Missing,
    }
}

fn validate(config: &mut Config) -> Result<(), ConfigError> {
    let facts = facts(config);
    config.validate(&facts)
}

fn validate_with(change: fn(&mut Config)) -> Result<(), ConfigError> {
    let mut config = test_config();
    change(&mut config);
    validate(&mut config)
}

fn checks_environment_file_syntax() {
    let environment =
        parse_environment("# comment\nexport LANG='C.UTF-8'\nEMPTY=\nVALUE=a=b\n").unwrap();
    assert_eq!(environment.get("LANG").map(String::as_str), Some("C.UTF-8"));
    assert_eq!(environment.get("EMPTY").map(String::as_str), Some(""));
    assert_eq!(environment.get("VALUE").map(String::as_str), Some("a=b"));
    assert!(parse_environment("INVALID\n").is_err());
}

#[test]
fn parses_environment_file_syntax() {
    checks_environment_file_syntax();
}

#[test]
fn lib_parses_environment_file_syntax() {
    checks_environment_file_syntax();
}

fn checks_dot_container_names() {
    assert!(!valid_name("."));
    assert!(!valid_name(".."));
    assert!(valid_name("debian.12"));
    assert!(valid_name("a..b"));
}

#[test]
fn rejects_dot_container_names() {
    checks_dot_container_names();
}

#[test]
fn lib_rejects_dot_container_names() {
    checks_dot_container_names();
}

fn checks_parent_bind_target() {
    assert!(!safe_container_path("/opt/../etc"));
}

#[test]
fn rejects_parent_bind_target() {
    checks_parent_bind_target();
}

#[test]
fn lib_rejects_parent_bind_target() {
    checks_parent_bind_target();
}

fn checks_old_root_bind_targets() {
    assert!(!safe_container_path("/.old_root"));
    assert!(!safe_container_path("/.old_root/etc"));
    assert!(safe_container_path("/.old_rootfs"));
}

#[test]
fn rejects_old_root_bind_targets() {
    checks_old_root_bind_targets();
}

#[test]
fn lib_rejects_old_root_bind_targets() {
    checks_old_root_bind_targets();
}

fn checks_conflicting_ports_within_protocol() {
    let mut config = test_config();
    config.container.network_options.ports = vec![
        PortForward { host: 8080, container: 80, protocol: Protocol::Tcp },
        PortForward { host: 8080, container: 81, protocol: Protocol::Tcp },
    ];
    assert!(validate(&mut config).is_err());

    config.container.network_options.ports[1].protocol = Protocol::Udp;
    assert!(validate(&mut config).is_ok());
}

#[test]
fn rejects_conflicting_ports_within_protocol() {
    checks_conflicting_ports_within_protocol();
}

#[test]
fn lib_rejects_conflicting_ports_within_protocol() {
    checks_conflicting_ports_within_protocol();
}

fn checks_dhcp_bridge_name() {
    let mut config = test_config();
    config.container.network = NetworkMode::Dhcp;
    config.container.network_options.gateway_bridge.clear();
    assert!(validate(&mut config).is_err());

    config.container.network_options.gateway_bridge = "br0".to_owned();
    assert!(validate(&mut config).is_ok());
}

#[test]
fn dhcp_requires_an_existing_bridge_name() {
    checks_dhcp_bridge_name();
}

#[test]
fn lib_dhcp_requires_an_existing_bridge_name() {
    checks_dhcp_bridge_name();
}

fn checks_resource_limit_ranges() {
    let mut config = test_config();
    config.container.resources.memory_bytes = Some(4 * 1024 * 1024 - 1);
    assert!(validate(&mut config).is_err());

    let mut config = test_config();
    config.container.resources.cpu_quota = Some(1_000);
    assert!(validate(&mut config).is_err());

    let mut config = test_config();
    config.container.resources.cpu_quota = Some(999);
    config.container.resources.cpu_period = Some(100_000);
    assert!(validate(&mut config).is_err());

    let mut config = test_config();
    config.container.resources.pids = Some(0);
    assert!(validate(&mut config).is_err());

    let mut config = test_config();
    config.container.resources.memory_bytes = Some(4 * 1024 * 1024);
    config.container.resources.cpu_quota = Some(1_000);
    config.container.resources.cpu_period = Some(100_000);
    config.container.resources.pids = Some(4_194_304);
    assert!(validate(&mut config).is_ok());
}

#[test]
fn validates_resource_limit_ranges() {
    checks_resource_limit_ranges();
}

#[test]
fn lib_validates_resource_limit_ranges() {
    checks_resource_limit_ranges();
}

#[test]
fn loads_toml_and_resolves_relative_host_paths() {
    let mut config = test_config();
    config.container.name = "test-1".to_owned();
    config.container.rootfs = Some("rootfs".to_owned());
    let base = resolution_base("/srv/machines/container.toml");
    assert_eq!(base, "/srv/machines");
    let resolved = config.host_paths(&base);
    assert_eq!(resolved, ["/srv/machines/rootfs"]);
    config.resolve_paths("/run/kurumi-containerd".to_owned(), &resolved);
    assert!(validate(&mut config).is_ok());
    assert_eq!(config.container.hostname, "test-1");
    assert_eq!(config.container.rootfs.as_deref(), Some("/srv/machines/rootfs"));
}

#[test]
fn lib_loads_toml_and_resolves_relative_host_paths() {
    let mut config = test_config();
    config.container.name = "test-1".to_owned();
    config.container.rootfs = Some("rootfs".to_owned());
    config.runtime.workdir = "state".to_owned();
    let base = resolution_base("/srv/machines/container.toml");
    let workdir = absolute_workdir(&base, &config.runtime.workdir);
    let resolved = config.host_paths(&base);
    config.resolve_paths(workdir, &resolved);
    assert!(validate(&mut config).is_ok());
    assert_eq!(config.runtime.workdir, "/srv/machines/state");
    assert_eq!(config.container.hostname, "test-1");
    assert_eq!(config.container.rootfs.as_deref(), Some("/srv/machines/rootfs"));
}

#[test]
fn loads_missing_directory_for_install() {
    let mut config = test_config();
    let mut missing = facts(&config);
    missing.rootfs_is_directory = false;
    missing.init_exists = false;
    assert_eq!(config.validate(&missing), Err(ConfigError::RootfsNotDirectory));
    assert_eq!(config.validate_for_install(missing), Ok(()));
    assert_eq!(config.container.rootfs.as_deref(), Some("/srv/rootfs"));
}

#[test]
fn loads_missing_image_for_install() {
    let mut config = test_config();
    config.container.rootfs = None;
    config.container.rootfs_image = Some("/srv/rootfs.img".to_owned());
    let mut missing = facts(&config);
    missing.image_exists = false;
    missing.init_exists = false;
    assert_eq!(config.validate(&missing), Err(ConfigError::ImageMissing));
    assert_eq!(config.validate_for_install(missing), Ok(()));
    assert_eq!(config.container.rootfs_image.as_deref(), Some("/srv/rootfs.img"));
}

#[test]
fn install_target_rejects_parent_traversal() {
    let mut config = test_config();
    config.container.rootfs = Some(absolute_workdir("/srv/machines", "../rootfs"));
    let found = facts(&config);
    assert_eq!(config.validate_for_install(found), Err(ConfigError::TargetClimbs));
}

fn checks_environment_file_before_inline_overrides(source: &str) {
    let mut config = test_config();
    config.container.environment_file = Some("/srv/container.env".to_owned());
    config.container.environment.insert("LANG".to_owned(), "C.UTF-8".to_owned());
    let mut found = facts(&config);
    found.environment_file =
        EnvironmentSource::Text("LANG=en_US.UTF-8\nFILE_ONLY=yes\n".to_owned());
    config.validate(&found).unwrap();
    assert_eq!(config.container.environment.get("LANG").unwrap(), "C.UTF-8");
    assert_eq!(config.container.environment.get("FILE_ONLY").unwrap(), "yes");
    assert_eq!(config.container.environment_file.as_deref(), Some("/srv/container.env"));
    let (_, persisted) = assign_new_uuid(source).unwrap();
    assert!(persisted.contains("environment_file = \"container.env\""));
    assert!(!persisted.contains("FILE_ONLY"));
}

#[test]
fn loads_environment_file_before_inline_overrides() {
    checks_environment_file_before_inline_overrides(
        "[runtime]\n\n[container]\nname = 'test'\nrootfs = 'rootfs'\nenvironment_file = 'container.env'\n\n[container.environment]\nLANG = 'C.UTF-8'\n",
    );
}

#[test]
fn lib_loads_environment_file_before_inline_overrides() {
    checks_environment_file_before_inline_overrides(
        "[runtime]\nworkdir = 'state'\n\n[container]\nname = 'test'\nrootfs = 'rootfs'\nenvironment_file = 'container.env'\n\n[container.environment]\nLANG = 'C.UTF-8'\n",
    );
}

#[test]
fn injects_environment_key_from_config() {
    let mut config = test_config();
    config.container.environment.insert("MY_KEY".to_owned(), "my-value".to_owned());
    validate(&mut config).unwrap();
    let environment = container_environment(
        Edition::Kurumi,
        &config.container.environment,
        &config.container.android,
        None,
    )
    .unwrap();
    assert!(environment.iter().any(|value| value == "MY_KEY=my-value"));
}

#[test]
fn validation_settles_the_hostname_and_is_idempotent() {
    let mut config = test_config();
    validate(&mut config).unwrap();
    assert_eq!(config.container.hostname, "test");
    validate(&mut config).unwrap();
    assert_eq!(config.container.hostname, "test");
    config.container.hostname = "other".to_owned();
    validate(&mut config).unwrap();
    assert_eq!(config.container.hostname, "other");
}

#[test]
fn early_errors_leave_the_hostname_alone() {
    let mut config = test_config();
    config.runtime.stop_timeout_seconds = 0;
    assert_eq!(validate(&mut config), Err(ConfigError::StopTimeout));
    assert_eq!(config.container.hostname, "");
    let mut config = test_config();
    config.container.network_options.prefix = 33;
    assert_eq!(validate(&mut config), Err(ConfigError::Prefix));
    assert_eq!(config.container.hostname, "test");
}

#[test]
fn every_rule_has_its_error() {
    assert_eq!(validate_with(|c| c.container.name.clear()), Err(ConfigError::Name));
    assert_eq!(
        validate_with(|c| c.container.name = "bad name".to_owned()),
        Err(ConfigError::Name)
    );
    assert_eq!(
        validate_with(|c| c.runtime.workdir = "state".to_owned()),
        Err(ConfigError::WorkdirRelative)
    );
    assert_eq!(
        validate_with(|c| c.container.rootfs = None),
        Err(ConfigError::RootfsChoice)
    );
    assert_eq!(
        validate_with(|c| c.container.rootfs_image = Some("/srv/image".to_owned())),
        Err(ConfigError::RootfsChoice)
    );
    assert_eq!(
        validate_with(|c| c.container.rootfs = Some("srv".to_owned())),
        Err(ConfigError::RootfsRelative)
    );
    assert_eq!(
        validate_with(|c| {
            c.container.rootfs = None;
            c.container.rootfs_image = Some("image".to_owned());
        }),
        Err(ConfigError::ImageRelative)
    );
    assert_eq!(
        validate_with(|c| c.container.init = "sbin/init".to_owned()),
        Err(ConfigError::InitRelative)
    );
    assert_eq!(
        validate_with(|c| c.container.network_options.bridge = "a/b".to_owned()),
        Err(ConfigError::Bridge)
    );
    assert_eq!(
        validate_with(|c| c.container.network = NetworkMode::Gateway),
        Err(ConfigError::GatewayBridge)
    );
    assert_eq!(
        validate_with(|c| c.container.network_options.ports =
            vec![PortForward { host: 0, container: 1, protocol: Protocol::Tcp }]),
        Err(ConfigError::ZeroPort)
    );
    assert_eq!(
        validate_with(|c| c.container.network_options.ports = vec![
            PortForward { host: 1, container: 80, protocol: Protocol::Udp },
            PortForward { host: 1, container: 81, protocol: Protocol::Udp },
        ]),
        Err(ConfigError::DuplicateHostPort(1, Protocol::Udp))
    );
    assert_eq!(
        validate_with(|c| c.container.network_options.ports = vec![
            PortForward { host: 1, container: 80, protocol: Protocol::Tcp },
            PortForward { host: 2, container: 80, protocol: Protocol::Tcp },
        ]),
        Err(ConfigError::DuplicateContainerPort(80, Protocol::Tcp))
    );
    assert_eq!(
        validate_with(|c| c.container.resources.memory_bytes = Some(4_194_303)),
        Err(ConfigError::Memory)
    );
    assert_eq!(
        validate_with(|c| c.container.resources.cpu_period = Some(1)),
        Err(ConfigError::CpuPair)
    );
    assert_eq!(
        validate_with(|c| {
            c.container.resources.cpu_quota = Some(999);
            c.container.resources.cpu_period = Some(1);
        }),
        Err(ConfigError::CpuQuota)
    );
    assert_eq!(
        validate_with(|c| c.container.resources.pids = Some(4_194_305)),
        Err(ConfigError::Pids)
    );
    assert_eq!(
        validate_with(|c| c.container.mounts = vec![BindMount {
            source: "/srv".to_owned(),
            target: "/".to_owned(),
            read_only: false,
        }]),
        Err(ConfigError::UnsafeTarget(0))
    );
    assert_eq!(
        validate_with(|c| c.container.environment.insert("1X".to_owned(), String::new())),
        Err(ConfigError::EnvironmentKey(0))
    );
    assert_eq!(
        validate_with(|c| c.container.environment.insert("X".to_owned(), "a\0b".to_owned())),
        Err(ConfigError::EnvironmentNul)
    );
    assert_eq!(
        validate_with(|c| c.container.environment_file = Some("/srv/env".to_owned())),
        Err(ConfigError::EnvironmentFileMissing)
    );
}

#[test]
fn facts_of_the_host_are_errors_too() {
    let mut config = test_config();
    config.container.network_options.dns = vec!["1.1.1.1".to_owned(), "nowhere".to_owned()];
    config.container.mounts = vec![BindMount {
        source: "/missing".to_owned(),
        target: "/mnt".to_owned(),
        read_only: true,
    }];
    config.container.environment_file = Some("/srv/env".to_owned());

    let mut found = facts(&config);
    found.rootfs_is_directory = false;
    assert_eq!(config.validate(&found), Err(ConfigError::RootfsNotDirectory));

    let mut found = facts(&config);
    found.dns[1] = false;
    assert_eq!(config.validate(&found), Err(ConfigError::Dns(1)));

    let mut found = facts(&config);
    found.init_exists = false;
    assert_eq!(config.validate(&found), Err(ConfigError::InitMissing));

    let mut found = facts(&config);
    found.sources[0] = false;
    assert_eq!(config.validate(&found), Err(ConfigError::SourceMissing(0)));

    let mut found = facts(&config);
    found.environment_file = EnvironmentSource::Unreadable;
    assert_eq!(config.validate(&found), Err(ConfigError::EnvironmentFileUnreadable));

    let mut found = facts(&config);
    found.environment_file = EnvironmentSource::Text("A=1\nB\n".to_owned());
    assert_eq!(
        config.validate(&found),
        Err(ConfigError::EnvironmentFile(EnvironmentError {
            line: 2,
            fault: LineFault::NoEquals,
        }))
    );
}

#[test]
fn environment_files_name_the_line_of_a_fault() {
    let fault = |source: &str| parse_environment(source).unwrap_err();
    assert_eq!(fault("A=1\n\nB\n"), EnvironmentError { line: 3, fault: LineFault::NoEquals });
    assert_eq!(fault("1A=1\n"), EnvironmentError { line: 1, fault: LineFault::Key });
    assert_eq!(fault("A=a\0b\n"), EnvironmentError { line: 1, fault: LineFault::Nul });
}

#[test]
fn environment_files_unquote_and_override() {
    let environment =
        parse_environment("  A=\"x y\"  \r\nB='q\nA=second\nexport C=1\n#D=2").unwrap();
    assert_eq!(environment.get("A").unwrap(), "second");
    assert_eq!(environment.get("C").unwrap(), "1");
    assert_eq!(environment.get("D"), None);
    assert_eq!(environment.len(), 3);
    let single = parse_environment("A=\"x y\"").unwrap();
    assert_eq!(single.get("A").unwrap(), "x y");
}

#[test]
fn names_of_interfaces_and_variables() {
    assert!(valid_interface_name("br0"));
    assert!(!valid_interface_name(""));
    assert!(!valid_interface_name("0123456789abcdef"));
    assert!(valid_interface_name("0123456789abcde"));
    assert!(!valid_interface_name("a b"));
    assert!(valid_env_key("_A1"));
    assert!(!valid_env_key(""));
    assert!(!valid_env_key("1A"));
    assert!(!valid_env_key("A-B"));
}

#[test]
fn defaults_are_those_of_the_documentation() {
    assert_eq!(default_init(), "/sbin/init");
    assert_eq!(default_hostname(), "");
    assert_eq!(default_stop_timeout(), 15);
    assert_eq!(protocol_name(Protocol::Tcp), "tcp");
    assert_eq!(protocol_name(Protocol::Udp), "udp");
    assert_eq!(NetworkMode::default(), NetworkMode::Host);
    assert_eq!(Ipv4Address::new(10, 0, 255, 1).text(), "10.0.255.1");
    assert_eq!(Ipv4Address::new(10, 0, 255, 1).bits, 0x0a00_ff01);
}

#[test]
fn host_paths_are_taken_from_the_configuration() {
    let mut config = test_config();
    config.container.rootfs = Some("/abs".to_owned());
    config.container.mounts = vec![
        BindMount { source: "a".to_owned(), target: "/a".to_owned(), read_only: false },
        BindMount { source: "/b".to_owned(), target: "/b".to_owned(), read_only: true },
    ];
    config.container.environment_file = Some("env".to_owned());
    let paths = config.host_paths("/base");
    assert_eq!(paths, ["/abs", "/base/a", "/b", "/base/env"]);
    let resolved: Vec<String> = paths.iter().map(|path| format!("/real{path}")).collect();
    config.resolve_paths("/w".to_owned(), &resolved);
    assert_eq!(config.container.rootfs.as_deref(), Some("/real/abs"));
    assert_eq!(config.container.mounts[0].source, "/real/base/a");
    assert_eq!(config.container.mounts[1].source, "/real/b");
    assert!(config.container.mounts[1].read_only);
    assert_eq!(config.container.environment_file.as_deref(), Some("/real/base/env"));
    assert_eq!(resolution_base("container.toml"), ".");
}

#[test]
fn init_is_looked_for_in_the_rootfs() {
    let mut config = test_config();
    assert_eq!(config.init_in_rootfs().as_deref(), Some("/srv/rootfs/sbin/init"));
    config.container.rootfs = None;
    assert_eq!(config.init_in_rootfs(), None);
}
