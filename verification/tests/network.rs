use kurumi_containerd::config::model::{
    default_init, AndroidConfig, Config, ContainerConfig, Ipv4Address, NetworkConfig, NetworkMode,
    PortForward, Protocol, ResourceConfig, RuntimeConfig, SecurityConfig,
};
use kurumi_containerd::edition::Edition;
use kurumi_containerd::env::Environment;
use kurumi_containerd::host::lease::{
    CountedLease, NatLease, NatLeaseOwner, NatRelease, ProcessStat, Release,
};
use kurumi_containerd::host::network::{
    bridge_arguments, check_arguments, command, command_paths, command_places, dns_text,
    failure_text, link_exists, masked_network, nat_lease_path, owned_rule, run_allow_exists,
    CleanupStep, DhcpClient, DhcpDecision, HostSetup, Network, NetworkStep, StepOutcome,
};
use kurumi_containerd::plan::Action;

fn texts(items: &[&str]) -> Vec<String> {
    items.iter().map(|item| item.to_string()).collect()
}

fn config(mode: NetworkMode) -> Config {
    let mut options = NetworkConfig::default();
    options.address = Ipv4Address::new(10, 1, 2, 3);
    options.gateway = Ipv4Address::new(10, 1, 2, 1);
    options.prefix = 24;
    options.bridge = "nat0".to_owned();
    options.gateway_bridge = "br0".to_owned();
    options.dns = texts(&["1.1.1.1"]);
    options.ports = vec![PortForward { host: 8080, container: 80, protocol: Protocol::Udp }];
    Config {
        runtime: RuntimeConfig { workdir: "/run/x".to_owned(), stop_timeout_seconds: 15 },
        container: ContainerConfig {
            name: "box".to_owned(),
            uuid: None,
            rootfs: Some("/tmp".to_owned()),
            rootfs_image: None,
            hostname: String::new(),
            init: default_init(),
            foreground: false,
            volatile: false,
            network: mode,
            network_options: options,
            android: AndroidConfig::default(),
            resources: ResourceConfig::default(),
            security: SecurityConfig::default(),
            mounts: Vec::new(),
            environment: Environment::new(),
            environment_file: None,
        },
    }
}

fn run(setup: &mut HostSetup, outcome: StepOutcome) {
    while setup.next().is_some() {
        assert!(setup.advance(outcome));
    }
}

#[test]
fn nat_lease_uses_global_runtime_directory() {
    assert_eq!(
        nat_lease_path(Edition::Gnosis.run_directory()),
        "/run/gnosis/network-state.json"
    );
    assert_eq!(
        nat_lease_path("/data/tmp/kurumi-containerd"),
        "/data/tmp/kurumi-containerd/network-state.json"
    );
}

#[test]
fn replaces_dangling_resolv_conf_symlink() {
    let plan = Network::write_dns(&config(NetworkMode::Host), "/rootfs", true);
    assert_eq!(
        plan,
        [
            Action::CreateDirAll("/rootfs/etc".to_owned()),
            Action::RemoveFile("/rootfs/etc/resolv.conf".to_owned()),
            Action::WriteFile {
                path: "/rootfs/etc/resolv.conf".to_owned(),
                contents: "nameserver 1.1.1.1\n".to_owned(),
            },
        ]
    );
    let plan = Network::write_dns(&config(NetworkMode::Host), "/rootfs", false);
    assert_eq!(plan.len(), 2);
    assert_eq!(Network::dns_path("/rootfs"), "/rootfs/etc/resolv.conf");
}

#[test]
fn rejects_stale_nat_lease_owner_identity() {
    let owner = NatLeaseOwner::new("boot".to_owned(), 42, 1_000);
    let stat = ProcessStat { start_time: 1_000, zombie: false };
    assert!(owner.is_live("boot", Some(stat)));

    let stale_owner = NatLeaseOwner::new("boot".to_owned(), 42, 1_001);
    assert!(!stale_owner.is_live("boot", Some(stat)));
    assert!(!owner.is_live("another", Some(stat)));
    assert!(!owner.is_live("boot", None));
    assert!(!owner.is_live("boot", Some(ProcessStat { start_time: 1_000, zombie: true })));
}

#[test]
fn host_mode_needs_nothing() {
    let setup = Network::setup_host(Edition::Kurumi, &config(NetworkMode::Host), 7);
    assert!(setup.next().is_none());
    assert_eq!(setup.network.peer_name(), "none");
    let setup = Network::setup_host(Edition::Kurumi, &config(NetworkMode::Isolated), 7);
    assert_eq!(setup.steps, [NetworkStep::EnterHost]);
    assert_eq!(setup.network.peer_name(), "none");
}

#[test]
fn nat_mode_sets_links_and_rules_up_and_takes_them_down() {
    let mut setup = Network::setup_host(Edition::Kurumi, &config(NetworkMode::Nat), 7);
    let mark = "kurumi-containerd:box:7";
    assert_eq!(setup.network.peer_name(), "dsp7");
    assert_eq!(
        setup.steps,
        [
            NetworkStep::EnterHost,
            NetworkStep::EnsureBridge("nat0".to_owned()),
            NetworkStep::IpAllowExists(texts(&["address", "add", "10.1.2.1/24", "dev", "nat0"])),
            NetworkStep::Ip(texts(&["link", "set", "nat0", "up"])),
            NetworkStep::Ip(texts(&[
                "link", "add", "dsv7", "type", "veth", "peer", "name", "dsp7",
            ])),
            NetworkStep::Ip(texts(&["link", "set", "dsv7", "master", "nat0"])),
            NetworkStep::Ip(texts(&["link", "set", "dsv7", "up"])),
            NetworkStep::Ip(texts(&["link", "set", "dsp7", "netns", "7"])),
            NetworkStep::AcquireLease,
            NetworkStep::EnableForwarding,
            NetworkStep::EnsureRule(texts(&[
                "-t", "nat", "-A", "POSTROUTING", "-s", "10.1.2.0/24", "-m", "comment",
                "--comment", mark, "-j", "MASQUERADE",
            ])),
            NetworkStep::EnsureRule(texts(&[
                "-A", "FORWARD", "-i", "nat0", "-m", "comment", "--comment", mark, "-j", "ACCEPT",
            ])),
            NetworkStep::EnsureRule(texts(&[
                "-A", "FORWARD", "-o", "nat0", "-m", "conntrack", "--ctstate",
                "ESTABLISHED,RELATED", "-m", "comment", "--comment", mark, "-j", "ACCEPT",
            ])),
            NetworkStep::EnsureRule(texts(&[
                "-t", "nat", "-A", "PREROUTING", "-p", "udp", "--dport", "8080", "-m", "comment",
                "--comment", mark, "-j", "DNAT", "--to-destination", "10.1.2.3:80",
            ])),
            NetworkStep::EnsureRule(texts(&[
                "-A", "FORWARD", "-p", "udp", "-d", "10.1.2.3", "--dport", "80", "-m", "comment",
                "--comment", mark, "-j", "ACCEPT",
            ])),
        ]
    );
    run(&mut setup, StepOutcome::Done);
    let steps = setup.network.cleanup();
    assert_eq!(steps.len(), 7);
    assert_eq!(
        steps[0],
        CleanupStep::DeleteRule(texts(&[
            "-D", "FORWARD", "-p", "udp", "-d", "10.1.2.3", "--dport", "80", "-m", "comment",
            "--comment", mark, "-j", "ACCEPT",
        ]))
    );
    assert_eq!(
        steps[4],
        CleanupStep::DeleteRule(texts(&[
            "-t", "nat", "-D", "POSTROUTING", "-s", "10.1.2.0/24", "-m", "comment", "--comment",
            mark, "-j", "MASQUERADE",
        ]))
    );
    assert_eq!(steps[5], CleanupStep::DeleteLink("dsv7".to_owned()));
    assert_eq!(steps[6], CleanupStep::ReleaseLease);
    assert_eq!(setup.network.cleanup(), []);
    assert_eq!(setup.network.peer_name(), "none");
}

#[test]
fn rules_that_were_there_stay_there() {
    let mut setup = Network::setup_host(Edition::Kurumi, &config(NetworkMode::Nat), 7);
    run(&mut setup, StepOutcome::AlreadyThere);
    let steps = setup.network.cleanup();
    assert!(steps.iter().all(|step| !matches!(step, CleanupStep::DeleteRule(_))));
}

#[test]
fn a_failed_setup_takes_down_what_it_set_up() {
    let mut setup = Network::setup_host(Edition::Kurumi, &config(NetworkMode::Nat), 7);
    let mut done = 0;
    while done < 11 {
        assert!(setup.advance(StepOutcome::Done));
        done += 1;
    }
    assert!(!setup.advance(StepOutcome::Failed));
    let steps = setup.network.cleanup();
    assert_eq!(steps.len(), 3);
    assert!(matches!(steps[0], CleanupStep::DeleteRule(_)));
    assert_eq!(steps[1], CleanupStep::DeleteLink("dsv7".to_owned()));
    assert_eq!(steps[2], CleanupStep::ReleaseLease);
}

#[test]
fn the_container_side_is_configured_by_mode() {
    assert!(Network::setup_child(&config(NetworkMode::Host), "none").is_empty());
    assert_eq!(
        Network::setup_child(&config(NetworkMode::Isolated), "none"),
        [texts(&["link", "set", "lo", "up"])]
    );
    assert_eq!(
        Network::setup_child(&config(NetworkMode::Nat), "dsp7"),
        [
            texts(&["link", "set", "lo", "up"]),
            texts(&["link", "set", "dsp7", "name", "eth0"]),
            texts(&["link", "set", "eth0", "up"]),
            texts(&["address", "add", "10.1.2.3/24", "dev", "eth0"]),
            texts(&["route", "add", "default", "via", "10.1.2.1"]),
        ]
    );
    assert_eq!(Network::setup_child(&config(NetworkMode::Dhcp), "dsp7").len(), 3);
}

#[test]
fn dhcp_clients_are_taken_in_order() {
    let dhcp = config(NetworkMode::Dhcp);
    assert_eq!(
        Network::setup_dhcp(&config(NetworkMode::Nat), true, true, true),
        DhcpDecision::Skip
    );
    assert_eq!(
        Network::setup_dhcp(&dhcp, true, true, true),
        DhcpDecision::Run(DhcpClient::Udhcpc)
    );
    assert_eq!(
        Network::setup_dhcp(&dhcp, false, true, true),
        DhcpDecision::Run(DhcpClient::Dhclient)
    );
    assert_eq!(
        Network::setup_dhcp(&dhcp, false, false, true),
        DhcpDecision::Run(DhcpClient::Dhcpcd)
    );
    assert_eq!(Network::setup_dhcp(&dhcp, false, false, false), DhcpDecision::NoClient);
    assert_eq!(DhcpClient::Udhcpc.arguments(), ["-n", "-q", "-i", "eth0"]);
    assert_eq!(DhcpClient::Dhclient.arguments(), ["-1", "-v", "eth0"]);
    assert_eq!(DhcpClient::Dhcpcd.arguments(), ["-1", "eth0"]);
    assert_eq!(DhcpClient::Dhcpcd.program(), "dhcpcd");
}

#[test]
fn networks_are_masked() {
    let address = Ipv4Address::new(192, 168, 77, 200);
    assert_eq!(masked_network(address, 24).text(), "192.168.77.0");
    assert_eq!(masked_network(address, 20).text(), "192.168.64.0");
    assert_eq!(masked_network(address, 0).text(), "0.0.0.0");
    assert_eq!(masked_network(address, 32).text(), "192.168.77.200");
}

#[test]
fn commands_are_found_in_fixed_places() {
    let places = command_places("ip");
    assert_eq!(places[0], "/system/bin/ip");
    let mut present = vec![false; places.len()];
    assert_eq!(command("ip", &present), "ip");
    present[2] = true;
    assert_eq!(command("ip", &present), places[2]);
    assert_eq!(command_paths("udhcpc")[0], "/usr/sbin/udhcpc");
    assert_eq!(command_paths("udhcpc").len(), 5);
}

#[test]
fn command_failures_are_judged_by_their_text() {
    assert!(run_allow_exists(true, ""));
    assert!(run_allow_exists(false, "RTNETLINK answers: File exists\n"));
    assert!(!run_allow_exists(false, "No such device"));
    let text = failure_text("ip", &texts(&["link", "add"]), " broken \n");
    assert_eq!(text, "ip link add failed: broken");
    assert_eq!(link_exists("br0"), ["link", "show", "br0"]);
    assert_eq!(bridge_arguments("br0", true), None);
    assert_eq!(
        bridge_arguments("br0", false),
        Some(texts(&["link", "add", "br0", "type", "bridge"]))
    );
}

#[test]
fn rules_carry_the_mark_of_their_container() {
    let rule = texts(&["-A", "FORWARD", "-j", "ACCEPT"]);
    let owned = owned_rule(Edition::Gnosis, "box", 7, &rule);
    assert_eq!(
        owned,
        ["-A", "FORWARD", "-m", "comment", "--comment", "gnosis:box:7", "-j", "ACCEPT"]
    );
    assert_eq!(check_arguments(&owned)[0], "-C");
    assert_eq!(check_arguments(&owned)[1..], owned[1..]);
}

#[test]
fn name_servers_are_written_one_per_line() {
    assert_eq!(dns_text(&texts(&["1.1.1.1", "::1"])), "nameserver 1.1.1.1\nnameserver ::1\n");
    assert_eq!(dns_text(&Vec::new()), "");
}

#[test]
fn counted_leases_restore_with_the_last_user() {
    let mut lease = CountedLease { users: 0, restore: false };
    assert!(lease.acquire(true));
    assert!(!lease.acquire(false));
    assert_eq!(lease.users, 2);
    let Release::Keep(lease) = lease.release() else {
        panic!("a user is left");
    };
    assert_eq!(lease.release(), Release::Remove { restore: true });
}

#[test]
fn nat_leases_drop_stale_owners() {
    let owner = |pid: i32| NatLeaseOwner::new("boot".to_owned(), pid, 1);
    let lease = NatLease::empty().acquire(owner(1), &vec![], false, true);
    assert!(lease.restore_disabled);
    let lease = lease.acquire(owner(2), &vec![true], true, false);
    assert_eq!(lease.owners.len(), 2);
    assert!(lease.restore_disabled);
    let NatRelease::Keep(lease) = lease.release(&owner(1), &vec![true, true]) else {
        panic!("an owner is left");
    };
    assert_eq!(lease.owners, [owner(2)]);
    assert_eq!(
        lease.release(&owner(2), &vec![true]),
        NatRelease::Remove { disable: true }
    );
    assert_eq!(
        lease.release(&owner(9), &vec![false]),
        NatRelease::Remove { disable: true }
    );
}

#[test]
fn gateway_mode_only_attaches_to_the_bridge() {
    let setup = Network::setup_host(Edition::Kurumi, &config(NetworkMode::Gateway), 7);
    assert_eq!(
        setup.steps,
        [
            NetworkStep::EnterHost,
            NetworkStep::Ip(texts(&[
                "link", "add", "dsv7", "type", "veth", "peer", "name", "dsp7",
            ])),
            NetworkStep::Ip(texts(&["link", "set", "dsv7", "master", "br0"])),
            NetworkStep::Ip(texts(&["link", "set", "dsv7", "up"])),
            NetworkStep::Ip(texts(&["link", "set", "dsp7", "netns", "7"])),
        ]
    );
    let dhcp = Network::setup_host(Edition::Kurumi, &config(NetworkMode::Dhcp), 7);
    assert_eq!(dhcp.steps[1], NetworkStep::EnsureBridge("br0".to_owned()));
    assert_eq!(dhcp.steps[2], NetworkStep::Ip(texts(&["link", "set", "br0", "up"])));
}
