//! The schema of the configuration. Paths are text; those on the host may be
//! relative to the configuration file until they are resolved.
use vstd::prelude::*;

use crate::env::Environment;
use crate::text::{decimal, decimal_text, views};

verus! {

/// The whole configuration.
#[derive(Debug, PartialEq, Eq)]
pub struct Config {
    pub runtime: RuntimeConfig,
    pub container: ContainerConfig,
}

/// How the runtime itself behaves.
#[derive(Debug, PartialEq, Eq)]
pub struct RuntimeConfig {
    /// Host directory for state, PID files, logs, and transient data.
    pub workdir: String,
    pub stop_timeout_seconds: u64,
}

/// One container.
#[derive(Debug, PartialEq, Eq)]
pub struct ContainerConfig {
    pub name: String,
    pub uuid: Option<u128>,
    pub rootfs: Option<String>,
    pub rootfs_image: Option<String>,
    pub hostname: String,
    pub init: String,
    pub foreground: bool,
    pub volatile: bool,
    pub network: NetworkMode,
    pub network_options: NetworkConfig,
    pub android: AndroidConfig,
    pub resources: ResourceConfig,
    pub security: SecurityConfig,
    pub mounts: Vec<BindMount>,
    pub environment: Environment,
    pub environment_file: Option<String>,
}

/// An IPv4 address, its first octet in the highest bits.
#[derive(Clone, Copy, Debug, PartialEq, Eq, Structural)]
pub struct Ipv4Address {
    pub bits: u32,
}

impl Ipv4Address {
    /// The address with these four octets.
    pub open spec fn from_octets(a: u8, b: u8, c: u8, d: u8) -> Ipv4Address {
        Ipv4Address { bits: (a * 0x100_0000 + b * 0x1_0000 + c * 0x100 + d) as u32 }
    }

    /// The octets in dotted decimal.
    pub open spec fn dotted(self) -> Seq<char> {
        decimal((self.bits / 0x100_0000) as nat) + "."@ + decimal(
            (self.bits / 0x1_0000 % 0x100) as nat,
        ) + "."@ + decimal((self.bits / 0x100 % 0x100) as nat) + "."@ + decimal(
            (self.bits % 0x100) as nat,
        )
    }

    /// The address with these four octets.
    pub fn new(a: u8, b: u8, c: u8, d: u8) -> (address: Ipv4Address)
        ensures
            address == Ipv4Address::from_octets(a, b, c, d),
    {
        Ipv4Address {
            bits: a as u32 * 0x100_0000 + b as u32 * 0x1_0000 + c as u32 * 0x100 + d as u32,
        }
    }

    /// The octets in dotted decimal.
    pub fn text(self) -> (text: String)
        ensures
            text@ == self.dotted(),
    {
        let mut text = decimal_text((self.bits / 0x100_0000) as u64);
        text.append(".");
        text.append(&decimal_text((self.bits / 0x1_0000 % 0x100) as u64));
        text.append(".");
        text.append(&decimal_text((self.bits / 0x100 % 0x100) as u64));
        text.append(".");
        text.append(&decimal_text((self.bits % 0x100) as u64));
        text
    }
}

/// The network of a container.
#[derive(Debug, PartialEq, Eq)]
pub struct NetworkConfig {
    pub address: Ipv4Address,
    pub gateway: Ipv4Address,
    pub prefix: u8,
    pub bridge: String,
    pub gateway_bridge: String,
    pub dns: Vec<String>,
    pub ports: Vec<PortForward>,
}

impl Default for NetworkConfig {
    fn default() -> (config: NetworkConfig)
        ensures
            config.address == Ipv4Address::from_octets(172, 28, 0, 2),
            config.gateway == Ipv4Address::from_octets(172, 28, 0, 1),
            config.prefix == 16,
            config.bridge@ == "gnosis-br0"@,
            config.gateway_bridge@ == Seq::<char>::empty(),
            views(config.dns@) == seq!["1.1.1.1"@, "8.8.8.8"@],
            config.ports@ == Seq::<PortForward>::empty(),
    {
        let mut dns: Vec<String> = Vec::new();
        dns.push("1.1.1.1".to_owned());
        dns.push("8.8.8.8".to_owned());
        assert(views(dns@) =~= seq!["1.1.1.1"@, "8.8.8.8"@]);
        NetworkConfig {
            address: Ipv4Address::new(172, 28, 0, 2),
            gateway: Ipv4Address::new(172, 28, 0, 1),
            prefix: 16,
            bridge: "gnosis-br0".to_owned(),
            gateway_bridge: String::new(),
            dns,
            ports: Vec::new(),
        }
    }
}

/// A port of the host that leads to a port of the container.
#[derive(Clone, Copy, Debug, PartialEq, Eq, Structural)]
pub struct PortForward {
    pub host: u16,
    pub container: u16,
    pub protocol: Protocol,
}

/// The transport of a forwarded port.
#[derive(Clone, Copy, Debug, Default, PartialEq, Eq, Structural)]
pub enum Protocol {
    #[default]
    Tcp,
    Udp,
}

impl Protocol {
    pub open spec fn text(self) -> Seq<char> {
        match self {
            Protocol::Tcp => "tcp"@,
            Protocol::Udp => "udp"@,
        }
    }
}

/// The name of a transport.
pub fn protocol_name(protocol: Protocol) -> (name: &'static str)
    ensures
        name@ == protocol.text(),
{
    match protocol {
        Protocol::Tcp => "tcp",
        Protocol::Udp => "udp",
    }
}

/// Which parts of an Android host the container shares.
#[derive(Clone, Copy, Debug, Default, PartialEq, Eq, Structural)]
pub struct AndroidConfig {
    pub storage: bool,
    pub gpu: bool,
    pub binder: bool,
    pub termux_x11: bool,
    pub virgl: bool,
    pub pulse_audio: bool,
    pub selinux_permissive: bool,
}

/// Limits on what the container may use.
#[derive(Clone, Copy, Debug, Default, PartialEq, Eq, Structural)]
pub struct ResourceConfig {
    pub memory_bytes: Option<u64>,
    pub cpu_quota: Option<u64>,
    pub cpu_period: Option<u64>,
    pub pids: Option<u64>,
}

/// What the container is kept from.
#[derive(Clone, Copy, Debug, PartialEq, Eq, Structural)]
pub struct SecurityConfig {
    pub read_only_sys: bool,
    pub allow_user_namespaces: bool,
}

impl Default for SecurityConfig {
    fn default() -> (config: SecurityConfig)
        ensures
            config.read_only_sys,
            !config.allow_user_namespaces,
    {
        SecurityConfig { read_only_sys: true, allow_user_namespaces: false }
    }
}

/// How the container is connected.
#[derive(Clone, Copy, Debug, Default, PartialEq, Eq, Structural)]
pub enum NetworkMode {
    #[default]
    Host,
    /// Its own network without any link, called `none` in configurations.
    Isolated,
    Nat,
    Gateway,
    Dhcp,
}

/// A path of the host that the container sees.
#[derive(Debug, PartialEq, Eq)]
pub struct BindMount {
    pub source: String,
    pub target: String,
    pub read_only: bool,
}

/// How long a container may take to stop, in seconds.
pub fn default_stop_timeout() -> (seconds: u64)
    ensures
        seconds == 15,
{
    15
}

/// No hostname: validation takes the container's name.
pub fn default_hostname() -> (hostname: String)
    ensures
        hostname@ == Seq::<char>::empty(),
{
    String::new()
}

/// The init program of a container.
pub fn default_init() -> (init: String)
    ensures
        init@ == "/sbin/init"@,
{
    "/sbin/init".to_owned()
}

/// An address is written as its four octets in decimal, with dots between them.
pub proof fn law_addresses_are_written_by_their_octets(a: u8, b: u8, c: u8, d: u8)
    ensures
        Ipv4Address::from_octets(a, b, c, d).dotted() == decimal(a as nat) + "."@ + decimal(b as nat)
            + "."@ + decimal(c as nat) + "."@ + decimal(d as nat),
{
    let n: int = a * 0x100_0000 + b * 0x1_0000 + c * 0x100 + d;
    let bits = Ipv4Address::from_octets(a, b, c, d).bits;
    assert(bits == n);
    assert(n / 0x100_0000 == a);
    assert(n / 0x1_0000 == a * 0x100 + b);
    assert(n / 0x100 == a * 0x1_0000 + b * 0x100 + c);
    assert((a * 0x100 + b) % 0x100 == b);
    assert((a * 0x1_0000 + b * 0x100 + c) % 0x100 == c);
    assert(n % 0x100 == d);
}

} // verus!
