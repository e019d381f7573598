//! Validation of the configuration: the rules that keep namespaces, mounts
//! and networking safe, in the order in which they are applied.
use vstd::prelude::*;

use crate::config::environment_file::{
    clean, contains_nul, file_meaning, holds_nul, law_environment_file_is_clean, parse_environment,
    EnvironmentError,
};
use crate::config::model::{
    BindMount, Config, NetworkMode, PortForward, Protocol, ResourceConfig,
};
use crate::config::names::{
    bind_target, container_name, interface_name, safe_container_path, valid_env_key,
    valid_interface_name, valid_name, variable_name,
};
use crate::env::{increasing, key_index, lemma_key_index, map_of, Environment, Pair};
use crate::path::{
    absolute, below_root, climbs, is_absolute, join, join_paths, law_climbing_paths, leads_up,
    strip_root,
};
use crate::text::{chars_of, split_on};

verus! {

/// The first rule that a configuration breaks. Positions count from zero.
#[derive(Clone, Copy, Debug, PartialEq, Eq, Structural)]
pub enum ConfigError {
    Name,
    WorkdirRelative,
    RootfsChoice,
    /// The target of an installation leads upwards.
    TargetClimbs,
    RootfsRelative,
    RootfsNotDirectory,
    ImageRelative,
    ImageMissing,
    InitRelative,
    StopTimeout,
    Prefix,
    Bridge,
    GatewayBridge,
    /// A name server that is no address.
    Dns(usize),
    ZeroPort,
    DuplicateHostPort(u16, Protocol),
    DuplicateContainerPort(u16, Protocol),
    Memory,
    CpuQuota,
    CpuPeriod,
    CpuPair,
    Pids,
    InitMissing,
    /// A bind mount whose source does not exist.
    SourceMissing(usize),
    /// A bind mount whose target is not safe.
    UnsafeTarget(usize),
    /// An environment variable, in the order of the names.
    EnvironmentKey(usize),
    EnvironmentNul,
    EnvironmentFileMissing,
    EnvironmentFileUnreadable,
    EnvironmentFile(EnvironmentError),
}

/// What the host says of the environment file.
pub enum EnvironmentSource {
    /// It is not a file.
    Missing,
    /// It could not be read as text.
    Unreadable,
    /// Its contents.
    Text(String),
}

/// What the host says of the paths and addresses of a configuration.
pub struct HostFacts {
    /// `container.rootfs` is a directory.
    pub rootfs_is_directory: bool,
    /// `container.rootfs_image` exists.
    pub image_exists: bool,
    /// For each name server, whether it is an IP address.
    pub dns: Vec<bool>,
    /// The init program exists in the rootfs.
    pub init_exists: bool,
    /// For each bind mount, whether its source exists.
    pub sources: Vec<bool>,
    pub environment_file: EnvironmentSource,
}

impl HostFacts {
    /// Whether the facts are those of this configuration.
    pub open spec fn of(&self, config: &Config) -> bool {
        &&& self.dns@.len() == config.container.network_options.dns@.len()
        &&& self.sources@.len() == config.container.mounts@.len()
    }
}

/// The rules that come before the hostname is settled.
pub open spec fn early_error(config: &Config, facts: &HostFacts) -> Option<ConfigError> {
    let container = config.container;
    if !container_name(container.name@) {
        Some(ConfigError::Name)
    } else if !absolute(config.runtime.workdir@) {
        Some(ConfigError::WorkdirRelative)
    } else if container.rootfs is Some == container.rootfs_image is Some {
        Some(ConfigError::RootfsChoice)
    } else if container.rootfs is Some && !absolute(container.rootfs->0@) {
        Some(ConfigError::RootfsRelative)
    } else if container.rootfs is Some && !facts.rootfs_is_directory {
        Some(ConfigError::RootfsNotDirectory)
    } else if container.rootfs_image is Some && !absolute(container.rootfs_image->0@) {
        Some(ConfigError::ImageRelative)
    } else if container.rootfs_image is Some && !facts.image_exists {
        Some(ConfigError::ImageMissing)
    } else if !absolute(container.init@) {
        Some(ConfigError::InitRelative)
    } else if config.runtime.stop_timeout_seconds == 0 {
        Some(ConfigError::StopTimeout)
    } else {
        None
    }
}

/// The first name server from position `i` on that is no address.
pub open spec fn dns_error(valid: Seq<bool>, i: int) -> Option<ConfigError>
    decreases valid.len() - i,
{
    if i < 0 || i >= valid.len() {
        None
    } else if !valid[i] {
        Some(ConfigError::Dns(i as usize))
    } else {
        dns_error(valid, i + 1)
    }
}

/// Whether a port is zero at either end.
pub open spec fn some_port_is_zero(ports: Seq<PortForward>) -> bool {
    exists|i: int|
        0 <= i < ports.len() && ((#[trigger] ports[i]).host == 0 || ports[i].container == 0)
}

/// How two forwarded ports exclude each other.
pub open spec fn conflict(port: PortForward, other: PortForward) -> Option<ConfigError> {
    if port.protocol != other.protocol {
        None
    } else if port.host == other.host {
        Some(ConfigError::DuplicateHostPort(port.host, port.protocol))
    } else if port.container == other.container {
        Some(ConfigError::DuplicateContainerPort(port.container, port.protocol))
    } else {
        None
    }
}

/// The first port from position `j` on that excludes the one at `i`.
pub open spec fn conflict_with(ports: Seq<PortForward>, i: int, j: int) -> Option<ConfigError>
    decreases ports.len() - j,
{
    if j < 0 || j >= ports.len() {
        None
    } else {
        match conflict(ports[i], ports[j]) {
            Some(error) => Some(error),
            None => conflict_with(ports, i, j + 1),
        }
    }
}

/// The first port from position `i` on that a later one excludes.
pub open spec fn port_conflict(ports: Seq<PortForward>, i: int) -> Option<ConfigError>
    decreases ports.len() - i,
{
    if i < 0 || i >= ports.len() {
        None
    } else {
        match conflict_with(ports, i, i + 1) {
            Some(error) => Some(error),
            None => port_conflict(ports, i + 1),
        }
    }
}

/// The rules on the network.
pub open spec fn network_error(config: &Config, facts: &HostFacts) -> Option<ConfigError> {
    let options = config.container.network_options;
    let mode = config.container.network;
    if options.prefix > 32 {
        Some(ConfigError::Prefix)
    } else if !interface_name(options.bridge@) {
        Some(ConfigError::Bridge)
    } else if (mode == NetworkMode::Gateway || mode == NetworkMode::Dhcp) && !interface_name(
        options.gateway_bridge@,
    ) {
        Some(ConfigError::GatewayBridge)
    } else if dns_error(facts.dns@, 0) is Some {
        dns_error(facts.dns@, 0)
    } else if some_port_is_zero(options.ports@) {
        Some(ConfigError::ZeroPort)
    } else {
        port_conflict(options.ports@, 0)
    }
}

/// The rules on resource limits.
pub open spec fn resource_error(resources: ResourceConfig) -> Option<ConfigError> {
    if resources.memory_bytes is Some && resources.memory_bytes->0 < 4194304 {
        Some(ConfigError::Memory)
    } else if resources.cpu_quota is Some != resources.cpu_period is Some {
        Some(ConfigError::CpuPair)
    } else if resources.cpu_quota is Some && resources.cpu_quota->0 < 1000 {
        Some(ConfigError::CpuQuota)
    } else if resources.cpu_period is Some && resources.cpu_period->0 == 0 {
        Some(ConfigError::CpuPeriod)
    } else if resources.pids is Some && !(1 <= resources.pids->0 <= 4194304) {
        Some(ConfigError::Pids)
    } else {
        None
    }
}

/// The first bind mount from position `i` on that is refused.
pub open spec fn mount_error(mounts: Seq<BindMount>, sources: Seq<bool>, i: int) -> Option<
    ConfigError,
>
    decreases mounts.len() - i,
{
    if i < 0 || i >= mounts.len() {
        None
    } else if !sources[i] {
        Some(ConfigError::SourceMissing(i as usize))
    } else if !bind_target(mounts[i].target@) {
        Some(ConfigError::UnsafeTarget(i as usize))
    } else {
        mount_error(mounts, sources, i + 1)
    }
}

/// The first variable from position `i` on whose name is refused.
pub open spec fn key_error(pairs: Seq<Pair>, i: int) -> Option<ConfigError>
    decreases pairs.len() - i,
{
    if i < 0 || i >= pairs.len() {
        None
    } else if !variable_name(pairs[i].0) {
        Some(ConfigError::EnvironmentKey(i as usize))
    } else {
        key_error(pairs, i + 1)
    }
}

/// Whether the value of one of the variables holds a NUL.
pub open spec fn some_value_holds_nul(pairs: Seq<Pair>) -> bool {
    exists|i: int| 0 <= i < pairs.len() && holds_nul((#[trigger] pairs[i]).1)
}

/// The rules on the environment and its file.
pub open spec fn environment_error(config: &Config, facts: &HostFacts) -> Option<ConfigError> {
    let pairs = config.container.environment.pairs();
    if key_error(pairs, 0) is Some {
        key_error(pairs, 0)
    } else if some_value_holds_nul(pairs) {
        Some(ConfigError::EnvironmentNul)
    } else if config.container.environment_file is None {
        None
    } else {
        match facts.environment_file {
            EnvironmentSource::Missing => Some(ConfigError::EnvironmentFileMissing),
            EnvironmentSource::Unreadable => Some(ConfigError::EnvironmentFileUnreadable),
            EnvironmentSource::Text(text) => match file_meaning(text@) {
                Err(error) => Some(ConfigError::EnvironmentFile(error)),
                Ok(variables) => None,
            },
        }
    }
}

/// The rules that come after the hostname is settled.
pub open spec fn late_error(config: &Config, facts: &HostFacts) -> Option<ConfigError> {
    let container = config.container;
    if network_error(config, facts) is Some {
        network_error(config, facts)
    } else if resource_error(container.resources) is Some {
        resource_error(container.resources)
    } else if container.rootfs is Some && !facts.init_exists {
        Some(ConfigError::InitMissing)
    } else if mount_error(container.mounts@, facts.sources@, 0) is Some {
        mount_error(container.mounts@, facts.sources@, 0)
    } else {
        environment_error(config, facts)
    }
}

/// The first rule that a configuration breaks.
pub open spec fn validation_error(config: &Config, facts: &HostFacts) -> Option<ConfigError> {
    if early_error(config, facts) is Some {
        early_error(config, facts)
    } else {
        late_error(config, facts)
    }
}

/// The hostname, which is the container's name where none is configured.
pub open spec fn settled_hostname(config: &Config) -> Seq<char> {
    if config.container.hostname@.len() == 0 {
        config.container.name@
    } else {
        config.container.hostname@
    }
}

/// The variables of the environment file with the configured ones over them.
pub open spec fn merged_environment(config: &Config, facts: &HostFacts) -> Map<
    Seq<char>,
    Seq<char>,
> {
    let configured = config.container.environment@;
    match (config.container.environment_file, facts.environment_file) {
        (Some(path), EnvironmentSource::Text(text)) => match file_meaning(text@) {
            Ok(variables) => variables.union_prefer_right(configured),
            Err(error) => configured,
        },
        _ => configured,
    }
}

/// Whether `after` is `before` but for its hostname and its environment.
pub open spec fn same_but_settled(before: &Config, after: &Config) -> bool {
    after.runtime == before.runtime && after.container == (crate::config::model::ContainerConfig {
        hostname: after.container.hostname,
        environment: after.container.environment,
        ..before.container
    })
}

/// The facts as they will be once the root is installed.
pub open spec fn once_installed(facts: HostFacts) -> HostFacts {
    HostFacts { rootfs_is_directory: true, image_exists: true, init_exists: true, ..facts }
}

/// Whether the directory or the image of a container leads upwards.
pub open spec fn target_climbs(config: &Config) -> bool {
    ||| config.container.rootfs is Some && climbs(config.container.rootfs->0@)
    ||| config.container.rootfs_image is Some && climbs(config.container.rootfs_image->0@)
}

impl Config {
    /// The host path of the init program of a rootfs directory.
    pub fn init_in_rootfs(&self) -> (path: Option<String>)
        ensures
            match (path, self.container.rootfs) {
                (Some(path), Some(rootfs)) => path@ == join(
                    rootfs@,
                    below_root(self.container.init@),
                ),
                (None, None) => true,
                _ => false,
            },
    {
        match &self.container.rootfs {
            Some(rootfs) => Some(join_paths(rootfs, &strip_root(&self.container.init))),
            None => None,
        }
    }

    fn check_early(&self, facts: &HostFacts) -> (result: Result<(), ConfigError>)
        ensures
            match result {
                Ok(()) => early_error(self, facts) is None,
                Err(error) => early_error(self, facts) == Some(error),
            },
    {
        if !valid_name(&self.container.name) {
            return Err(ConfigError::Name);
        }
        if !is_absolute(&self.runtime.workdir) {
            return Err(ConfigError::WorkdirRelative);
        }
        if self.container.rootfs.is_some() == self.container.rootfs_image.is_some() {
            return Err(ConfigError::RootfsChoice);
        }
        if let Some(rootfs) = &self.container.rootfs {
            if !is_absolute(rootfs) {
                return Err(ConfigError::RootfsRelative);
            }
            if !facts.rootfs_is_directory {
                return Err(ConfigError::RootfsNotDirectory);
            }
        }
        if let Some(image) = &self.container.rootfs_image {
            if !is_absolute(image) {
                return Err(ConfigError::ImageRelative);
            }
            if !facts.image_exists {
                return Err(ConfigError::ImageMissing);
            }
        }
        if !is_absolute(&self.container.init) {
            return Err(ConfigError::InitRelative);
        }
        if self.runtime.stop_timeout_seconds == 0 {
            return Err(ConfigError::StopTimeout);
        }
        Ok(())
    }

    fn check_network(&self, facts: &HostFacts) -> (result: Result<(), ConfigError>)
        requires
            facts.of(self),
        ensures
            match result {
                Ok(()) => network_error(self, facts) is None,
                Err(error) => network_error(self, facts) == Some(error),
            },
    {
        let options = &self.container.network_options;
        if options.prefix > 32 {
            return Err(ConfigError::Prefix);
        }
        if !valid_interface_name(&options.bridge) {
            return Err(ConfigError::Bridge);
        }
        if (self.container.network == NetworkMode::Gateway || self.container.network
            == NetworkMode::Dhcp) && !valid_interface_name(&options.gateway_bridge) {
            return Err(ConfigError::GatewayBridge);
        }
        check_dns(&facts.dns)?;
        check_ports(&options.ports)
    }

    fn check_environment(&self) -> (result: Result<(), ConfigError>)
        ensures
            ({
                let pairs = self.container.environment.pairs();
                match result {
                    Ok(()) => key_error(pairs, 0) is None && !some_value_holds_nul(pairs),
                    Err(error) => if key_error(pairs, 0) is Some {
                        key_error(pairs, 0) == Some(error)
                    } else {
                        some_value_holds_nul(pairs) && error == ConfigError::EnvironmentNul
                    },
                }
            }),
    {
        let environment = &self.container.environment;
        let ghost pairs = environment.pairs();
        let count: usize = environment.len();
        let mut i: usize = 0;
        while i < count
            invariant
                i <= count,
                count == pairs.len(),
                pairs == environment.pairs(),
                pairs == self.container.environment.pairs(),
                key_error(pairs, 0) == key_error(pairs, i as int),
            decreases count - i,
        {
            if !valid_env_key(&environment.entry(i).key) {
                return Err(ConfigError::EnvironmentKey(i));
            }
            i += 1;
        }
        let mut j: usize = 0;
        while j < count
            invariant
                j <= count,
                count == pairs.len(),
                pairs == environment.pairs(),
                pairs == self.container.environment.pairs(),
                key_error(pairs, 0) is None,
                forall|k: int| 0 <= k < j ==> !holds_nul((#[trigger] pairs[k]).1),
            decreases count - j,
        {
            if contains_nul(&chars_of(&environment.entry(j).value)) {
                assert(holds_nul(pairs[j as int].1));
                return Err(ConfigError::EnvironmentNul);
            }
            j += 1;
        }
        Ok(())
    }

    /// The rules that come after the hostname is settled, and the environment
    /// where a file adds to it.
    fn check_late(&self, facts: &HostFacts) -> (result: Result<Option<Environment>, ConfigError>)
        requires
            facts.of(self),
        ensures
            match result {
                Ok(Some(environment)) => late_error(self, facts) is None && environment@
                    == merged_environment(self, facts),
                Ok(None) => late_error(self, facts) is None && self.container.environment@
                    == merged_environment(self, facts),
                Err(error) => late_error(self, facts) == Some(error),
            },
    {
        if let Err(error) = self.check_network(facts) {
            return Err(error);
        }
        if let Err(error) = check_resources(&self.container.resources) {
            return Err(error);
        }
        if self.container.rootfs.is_some() && !facts.init_exists {
            return Err(ConfigError::InitMissing);
        }
        if let Err(error) = check_mounts(&self.container.mounts, &facts.sources) {
            return Err(error);
        }
        if let Err(error) = self.check_environment() {
            return Err(error);
        }
        if self.container.environment_file.is_none() {
            return Ok(None);
        }
        match &facts.environment_file {
            EnvironmentSource::Missing => Err(ConfigError::EnvironmentFileMissing),
            EnvironmentSource::Unreadable => Err(ConfigError::EnvironmentFileUnreadable),
            EnvironmentSource::Text(text) => {
                match parse_environment(text) {
                    Ok(from_file) => {
                        let mut merged = from_file;
                        merged.extend(&self.container.environment);
                        Ok(Some(merged))
                    },
                    Err(error) => Err(ConfigError::EnvironmentFile(error)),
                }
            },
        }
    }

    /// Validates and normalizes values that affect namespace and mount safety.
    ///
    /// The default hostname is settled, and the environment file is merged
    /// under the inline environment.
    pub fn validate(&mut self, facts: &HostFacts) -> (result: Result<(), ConfigError>)
        requires
            facts.of(old(self)),
        ensures
            match result {
                Ok(()) => validation_error(old(self), facts) is None,
                Err(error) => validation_error(old(self), facts) == Some(error),
            },
            same_but_settled(old(self), final(self)),
            final(self).container.hostname@ == if early_error(old(self), facts) is Some {
                old(self).container.hostname@
            } else {
                settled_hostname(old(self))
            },
            final(self).container.environment@ == if result is Ok {
                merged_environment(old(self), facts)
            } else {
                old(self).container.environment@
            },
    {
        if let Err(error) = self.check_early(facts) {
            return Err(error);
        }
        let merged = self.check_late(facts);
        self.settle_hostname();
        match merged {
            Ok(Some(environment)) => {
                self.container.environment = environment;
                Ok(())
            },
            Ok(None) => Ok(()),
            Err(error) => Err(error),
        }
    }

    /// Validates a configuration whose root is about to be installed: it need
    /// not exist, and neither need init, but its path may not lead upwards.
    pub fn validate_for_install(&mut self, facts: HostFacts) -> (result: Result<(), ConfigError>)
        requires
            facts.of(old(self)),
        ensures
            match result {
                Ok(()) => !target_climbs(old(self)) && validation_error(
                    old(self),
                    &once_installed(facts),
                ) is None,
                Err(error) => if target_climbs(old(self)) {
                    error == ConfigError::TargetClimbs
                } else {
                    validation_error(old(self), &once_installed(facts)) == Some(error)
                },
            },
            same_but_settled(old(self), final(self)),
            final(self).container.hostname@ == if target_climbs(old(self)) || early_error(
                old(self),
                &once_installed(facts),
            ) is Some {
                old(self).container.hostname@
            } else {
                settled_hostname(old(self))
            },
            final(self).container.environment@ == if result is Ok {
                merged_environment(old(self), &once_installed(facts))
            } else {
                old(self).container.environment@
            },
    {
        if let Some(rootfs) = &self.container.rootfs {
            if leads_up(rootfs) {
                return Err(ConfigError::TargetClimbs);
            }
        }
        if let Some(image) = &self.container.rootfs_image {
            if leads_up(image) {
                return Err(ConfigError::TargetClimbs);
            }
        }
        let present = HostFacts {
            rootfs_is_directory: true,
            image_exists: true,
            init_exists: true,
            ..facts
        };
        self.validate(&present)
    }

    /// Takes the container's name as the hostname where none is configured.
    fn settle_hostname(&mut self)
        ensures
            final(self).runtime == old(self).runtime,
            final(self).container == (crate::config::model::ContainerConfig {
                hostname: final(self).container.hostname,
                ..old(self).container
            }),
            final(self).container.hostname@ == settled_hostname(old(self)),
    {
        if self.container.hostname.as_str().is_empty() {
            self.container.hostname = self.container.name.clone();
        }
    }
}

fn check_dns(valid: &Vec<bool>) -> (result: Result<(), ConfigError>)
    ensures
        match result {
            Ok(()) => dns_error(valid@, 0) is None,
            Err(error) => dns_error(valid@, 0) == Some(error),
        },
{
    let mut i: usize = 0;
    while i < valid.len()
        invariant
            i <= valid.len(),
            dns_error(valid@, 0) == dns_error(valid@, i as int),
        decreases valid.len() - i,
    {
        if !valid[i] {
            return Err(ConfigError::Dns(i));
        }
        i += 1;
    }
    Ok(())
}

fn check_ports(ports: &Vec<PortForward>) -> (result: Result<(), ConfigError>)
    ensures
        match result {
            Ok(()) => !some_port_is_zero(ports@) && port_conflict(ports@, 0) is None,
            Err(error) => if some_port_is_zero(ports@) {
                error == ConfigError::ZeroPort
            } else {
                port_conflict(ports@, 0) == Some(error)
            },
        },
{
    let mut k: usize = 0;
    while k < ports.len()
        invariant
            k <= ports.len(),
            forall|n: int|
                0 <= n < k ==> (#[trigger] ports@[n]).host != 0 && ports@[n].container != 0,
        decreases ports.len() - k,
    {
        if ports[k].host == 0 || ports[k].container == 0 {
            assert(ports@[k as int].host == 0 || ports@[k as int].container == 0);
            return Err(ConfigError::ZeroPort);
        }
        k += 1;
    }
    assert(!some_port_is_zero(ports@));
    let mut i: usize = 0;
    while i < ports.len()
        invariant
            i <= ports.len(),
            !some_port_is_zero(ports@),
            port_conflict(ports@, 0) == port_conflict(ports@, i as int),
        decreases ports.len() - i,
    {
        let port = ports[i];
        let mut j: usize = i + 1;
        while j < ports.len()
            invariant
                i < j <= ports.len(),
                port == ports@[i as int],
                !some_port_is_zero(ports@),
                port_conflict(ports@, 0) == port_conflict(ports@, i as int),
                conflict_with(ports@, i as int, i + 1) == conflict_with(
                    ports@,
                    i as int,
                    j as int,
                ),
            decreases ports.len() - j,
        {
            let other = ports[j];
            if port.protocol == other.protocol {
                if port.host == other.host {
                    return Err(ConfigError::DuplicateHostPort(port.host, port.protocol));
                }
                if port.container == other.container {
                    return Err(ConfigError::DuplicateContainerPort(port.container, port.protocol));
                }
            }
            j += 1;
        }
        i += 1;
    }
    Ok(())
}

fn check_resources(resources: &ResourceConfig) -> (result: Result<(), ConfigError>)
    ensures
        match result {
            Ok(()) => resource_error(*resources) is None,
            Err(error) => resource_error(*resources) == Some(error),
        },
{
    if let Some(memory) = resources.memory_bytes {
        if memory < 4194304 {
            return Err(ConfigError::Memory);
        }
    }
    match (resources.cpu_quota, resources.cpu_period) {
        (Some(quota), Some(period)) => {
            if quota < 1000 {
                return Err(ConfigError::CpuQuota);
            }
            if period == 0 {
                return Err(ConfigError::CpuPeriod);
            }
        },
        (None, None) => {},
        _ => {
            return Err(ConfigError::CpuPair);
        },
    }
    if let Some(pids) = resources.pids {
        if pids < 1 || pids > 4194304 {
            return Err(ConfigError::Pids);
        }
    }
    Ok(())
}

fn check_mounts(mounts: &Vec<BindMount>, sources: &Vec<bool>) -> (result: Result<(), ConfigError>)
    requires
        mounts@.len() == sources@.len(),
    ensures
        match result {
            Ok(()) => mount_error(mounts@, sources@, 0) is None,
            Err(error) => mount_error(mounts@, sources@, 0) == Some(error),
        },
{
    let mut i: usize = 0;
    while i < mounts.len()
        invariant
            i <= mounts.len(),
            mounts@.len() == sources@.len(),
            mount_error(mounts@, sources@, 0) == mount_error(mounts@, sources@, i as int),
        decreases mounts.len() - i,
    {
        if !sources[i] {
            return Err(ConfigError::SourceMissing(i));
        }
        if !safe_container_path(&mounts[i].target) {
            return Err(ConfigError::UnsafeTarget(i));
        }
        i += 1;
    }
    Ok(())
}

// ---------------------------------------------------------------------------
// What holds of every configuration that is accepted
// ---------------------------------------------------------------------------
/// Whether no two ports of one transport share an end.
pub open spec fn ports_are_distinct(ports: Seq<PortForward>) -> bool {
    forall|i: int, j: int|
        #![trigger ports[i], ports[j]]
        0 <= i < j < ports.len() && ports[i].protocol == ports[j].protocol ==> ports[i].host
            != ports[j].host && ports[i].container != ports[j].container
}

proof fn lemma_conflict_with(ports: Seq<PortForward>, i: int, j: int)
    requires
        0 <= i < j,
    ensures
        conflict_with(ports, i, j) is None <==> forall|k: int|
            j <= k < ports.len() ==> conflict(ports[i], #[trigger] ports[k]) is None,
    decreases ports.len() - j,
{
    if j < ports.len() {
        lemma_conflict_with(ports, i, j + 1);
        if conflict_with(ports, i, j) is None {
            assert forall|k: int| j <= k < ports.len() implies conflict(
                ports[i],
                #[trigger] ports[k],
            ) is None by {}
        } else {
            if conflict(ports[i], ports[j]) is None {
                assert(conflict_with(ports, i, j + 1) is Some);
            }
        }
    }
}

proof fn lemma_port_conflict(ports: Seq<PortForward>, i: int)
    requires
        0 <= i,
    ensures
        port_conflict(ports, i) is None <==> forall|n: int, k: int|
            #![trigger ports[n], ports[k]]
            i <= n < k < ports.len() ==> conflict(ports[n], ports[k]) is None,
    decreases ports.len() - i,
{
    if i < ports.len() {
        lemma_conflict_with(ports, i, i + 1);
        lemma_port_conflict(ports, i + 1);
        if port_conflict(ports, i) is Some {
            if conflict_with(ports, i, i + 1) is Some {
                let k = choose|k: int|
                    i + 1 <= k < ports.len() && conflict(ports[i], #[trigger] ports[k]) is Some;
                assert(conflict(ports[i], ports[k]) is Some);
            }
        }
    }
}

/// Ports are refused exactly where two of one transport share an end.
pub proof fn law_port_conflicts(ports: Seq<PortForward>)
    ensures
        port_conflict(ports, 0) is None <==> ports_are_distinct(ports),
{
    lemma_port_conflict(ports, 0);
    if ports_are_distinct(ports) {
        assert forall|n: int, k: int|
            #![trigger ports[n], ports[k]]
            0 <= n < k < ports.len() implies conflict(ports[n], ports[k]) is None by {}
    }
    if port_conflict(ports, 0) is None {
        assert forall|i: int, j: int|
            #![trigger ports[i], ports[j]]
            0 <= i < j < ports.len() && ports[i].protocol == ports[j].protocol implies ports[i].host
            != ports[j].host && ports[i].container != ports[j].container by {
            assert(conflict(ports[i], ports[j]) is None);
        }
    }
}

proof fn lemma_mount_error(mounts: Seq<BindMount>, sources: Seq<bool>, i: int)
    requires
        0 <= i,
        mount_error(mounts, sources, i) is None,
    ensures
        forall|k: int|
            i <= k < mounts.len() ==> bind_target((#[trigger] mounts[k]).target@) && sources[k],
    decreases mounts.len() - i,
{
    if i < mounts.len() {
        lemma_mount_error(mounts, sources, i + 1);
    }
}

proof fn lemma_key_error(pairs: Seq<Pair>, i: int)
    requires
        0 <= i,
    ensures
        key_error(pairs, i) is None <==> forall|k: int|
            i <= k < pairs.len() ==> variable_name((#[trigger] pairs[k]).0),
    decreases pairs.len() - i,
{
    if i < pairs.len() {
        lemma_key_error(pairs, i + 1);
        if key_error(pairs, i) is Some && variable_name(pairs[i].0) {
            assert(key_error(pairs, i + 1) is Some);
        }
    }
}

proof fn lemma_dns_error(valid: Seq<bool>, i: int)
    requires
        0 <= i,
        dns_error(valid, i) is None,
    ensures
        forall|k: int| i <= k < valid.len() ==> #[trigger] valid[k],
    decreases valid.len() - i,
{
    if i < valid.len() {
        lemma_dns_error(valid, i + 1);
    }
}

/// Whether the limits of a container are in range.
pub open spec fn limits_in_range(resources: ResourceConfig) -> bool {
    &&& resources.memory_bytes matches Some(bytes) ==> bytes >= 4_194_304
    &&& resources.cpu_quota is Some == resources.cpu_period is Some
    &&& resources.cpu_quota matches Some(quota) ==> quota >= 1_000
    &&& resources.cpu_period matches Some(period) ==> period > 0
    &&& resources.pids matches Some(pids) ==> 1 <= pids <= 4_194_304
}

/// What every accepted configuration has: a usable name, exactly one root, a
/// time to stop, valid names of bridges and name servers, safe mount targets
/// that have a source, ports that are not zero and do not collide, and limits
/// in range.
pub proof fn law_accepted_configuration(config: &Config, facts: &HostFacts)
    requires
        facts.of(config),
        validation_error(config, facts) is None,
    ensures
        container_name(config.container.name@),
        config.container.rootfs is Some != config.container.rootfs_image is Some,
        config.container.rootfs is Some ==> absolute(config.container.rootfs->0@),
        config.container.rootfs_image is Some ==> absolute(config.container.rootfs_image->0@),
        absolute(config.container.init@),
        settled_hostname(config).len() > 0,
        config.container.network_options.prefix <= 32,
        absolute(config.runtime.workdir@),
        config.runtime.stop_timeout_seconds > 0,
        interface_name(config.container.network_options.bridge@),
        config.container.network == NetworkMode::Gateway || config.container.network
            == NetworkMode::Dhcp ==> interface_name(
            config.container.network_options.gateway_bridge@,
        ),
        forall|k: int|
            0 <= k < config.container.network_options.dns@.len() ==> #[trigger] facts.dns@[k],
        ports_are_distinct(config.container.network_options.ports@),
        forall|k: int|
            0 <= k < config.container.network_options.ports@.len() ==> (
            #[trigger] config.container.network_options.ports@[k]).host > 0
                && config.container.network_options.ports@[k].container > 0,
        limits_in_range(config.container.resources),
        forall|k: int|
            0 <= k < config.container.mounts@.len() ==> bind_target(
                (#[trigger] config.container.mounts@[k]).target@,
            ) && facts.sources@[k],
{
    law_port_conflicts(config.container.network_options.ports@);
    lemma_dns_error(facts.dns@, 0);
    lemma_mount_error(config.container.mounts@, facts.sources@, 0);
}

proof fn lemma_clean_pairs(pairs: Seq<Pair>)
    requires
        increasing(pairs),
    ensures
        clean(map_of(pairs)) <==> key_error(pairs, 0) is None && !some_value_holds_nul(pairs),
{
    lemma_key_error(pairs, 0);
    if clean(map_of(pairs)) {
        assert forall|k: int| 0 <= k < pairs.len() implies variable_name((#[trigger] pairs[k]).0)
            && !holds_nul(pairs[k].1) by {
            lemma_key_index(pairs, k);
        }
    }
    if key_error(pairs, 0) is None && !some_value_holds_nul(pairs) {
        assert forall|key: Seq<char>| #[trigger] map_of(pairs).contains_key(key) implies
            variable_name(key) && !holds_nul(map_of(pairs)[key]) by {
            let k = key_index(pairs, key);
            assert(pairs[k].0 == key);
            lemma_key_index(pairs, k);
        }
    }
}

/// Validation is idempotent: what it accepted and settled, it accepts again,
/// and settles no further.
pub proof fn law_validation_is_idempotent(before: &Config, after: &Config, facts: &HostFacts)
    requires
        facts.of(before),
        validation_error(before, facts) is None,
        increasing(before.container.environment.pairs()),
        same_but_settled(before, after),
        after.container.hostname@ == settled_hostname(before),
        after.container.environment@ == merged_environment(before, facts),
        increasing(after.container.environment.pairs()),
    ensures
        validation_error(after, facts) is None,
        settled_hostname(after) == after.container.hostname@,
        merged_environment(after, facts) == after.container.environment@,
{
    let old_pairs = before.container.environment.pairs();
    let new_pairs = after.container.environment.pairs();
    lemma_clean_pairs(old_pairs);
    lemma_clean_pairs(new_pairs);
    match (before.container.environment_file, facts.environment_file) {
        (Some(path), EnvironmentSource::Text(text)) => {
            law_environment_file_is_clean(text@);
            let variables = file_meaning(text@)->Ok_0;
            assert(clean(after.container.environment@));
            assert(variables.union_prefer_right(after.container.environment@)
                =~= after.container.environment@);
        },
        _ => {},
    }
}

/// An inline variable wins over the environment file, and a variable that
/// only the file sets is kept.
pub proof fn law_inline_environment_wins(config: &Config, facts: &HostFacts, key: Seq<char>)
    requires
        facts.of(config),
        validation_error(config, facts) is None,
    ensures
        config.container.environment@.contains_key(key) ==> merged_environment(
            config,
            facts,
        ).contains_key(key) && merged_environment(config, facts)[key]
            == config.container.environment@[key],
        (config.container.environment_file is Some && !config.container.environment@.contains_key(
            key,
        )) ==> (facts.environment_file matches EnvironmentSource::Text(text) && (file_meaning(
            text@,
        ) matches Ok(variables) && (merged_environment(config, facts).contains_key(key)
            == variables.contains_key(key) && (variables.contains_key(key) ==> merged_environment(
            config,
            facts,
        )[key] == variables[key])))),
{
}

proof fn lemma_dns_accepted(valid: Seq<bool>, i: int)
    requires
        0 <= i,
        forall|k: int| i <= k < valid.len() ==> #[trigger] valid[k],
    ensures
        dns_error(valid, i) is None,
    decreases valid.len() - i,
{
    if i < valid.len() {
        assert(valid[i]);
        lemma_dns_accepted(valid, i + 1);
    }
}

/// Whether the mounts from a position on have safe targets, and sources that
/// exist.
pub open spec fn mounts_are_safe(mounts: Seq<BindMount>, sources: Seq<bool>, i: int) -> bool {
    forall|k: int|
        i <= k < mounts.len() ==> bind_target((#[trigger] mounts[k]).target@) && sources[k]
}

proof fn lemma_mounts_accepted(mounts: Seq<BindMount>, sources: Seq<bool>, i: int)
    requires
        0 <= i,
        mounts_are_safe(mounts, sources, i),
    ensures
        mount_error(mounts, sources, i) is None,
    decreases mounts.len() - i,
{
    if i < mounts.len() {
        assert(bind_target(mounts[i].target@) && sources[i]);
        lemma_mounts_accepted(mounts, sources, i + 1);
    }
}

/// Whether what the host says of a configuration speaks for it: its root is
/// there with its init program, or its image is, and the environment file can
/// be read.
pub open spec fn host_agrees(config: &Config, facts: &HostFacts) -> bool {
    &&& config.container.rootfs is Some ==> facts.rootfs_is_directory && facts.init_exists
    &&& config.container.rootfs_image is Some ==> facts.image_exists
    &&& config.container.environment_file is Some ==> (facts.environment_file
        matches EnvironmentSource::Text(text) && file_meaning(text@) is Ok)
}

/// Nothing else is asked of a configuration: one that has what every accepted
/// configuration has, and whose variables are clean, is accepted where the
/// host agrees. What an accepted one has of the host, and of its variables, is
/// the same.
pub proof fn law_proper_configurations_are_accepted(config: &Config, facts: &HostFacts)
    requires
        facts.of(config),
        increasing(config.container.environment.pairs()),
    ensures
        ({
            let container = config.container;
            let options = container.network_options;
            let proper = {
                &&& container_name(container.name@)
                &&& absolute(config.runtime.workdir@)
                &&& container.rootfs is Some != container.rootfs_image is Some
                &&& container.rootfs is Some ==> absolute(container.rootfs->0@)
                &&& container.rootfs_image is Some ==> absolute(container.rootfs_image->0@)
                &&& absolute(container.init@)
                &&& config.runtime.stop_timeout_seconds > 0
                &&& options.prefix <= 32
                &&& interface_name(options.bridge@)
                &&& container.network == NetworkMode::Gateway || container.network
                    == NetworkMode::Dhcp ==> interface_name(options.gateway_bridge@)
                &&& forall|k: int| 0 <= k < options.dns@.len() ==> #[trigger] facts.dns@[k]
                &&& ports_are_distinct(options.ports@)
                &&& forall|k: int|
                    0 <= k < options.ports@.len() ==> (#[trigger] options.ports@[k]).host > 0
                        && options.ports@[k].container > 0
                &&& limits_in_range(container.resources)
                &&& mounts_are_safe(container.mounts@, facts.sources@, 0)
            };
            &&& proper && host_agrees(config, facts) && clean(container.environment@)
                ==> validation_error(config, facts) is None
            &&& validation_error(config, facts) is None ==> host_agrees(config, facts) && clean(
                container.environment@,
            )
        }),
{
    let container = config.container;
    let options = container.network_options;
    law_port_conflicts(options.ports@);
    lemma_clean_pairs(container.environment.pairs());
    if forall|k: int| 0 <= k < options.dns@.len() ==> #[trigger] facts.dns@[k] {
        lemma_dns_accepted(facts.dns@, 0);
    }
    if mounts_are_safe(container.mounts@, facts.sources@, 0) {
        lemma_mounts_accepted(container.mounts@, facts.sources@, 0);
    }
}

/// A hostname that is configured is kept, and one that is not is the name of
/// the container.
pub proof fn law_hostnames_are_settled(config: &Config)
    ensures
        config.container.hostname@.len() > 0 ==> settled_hostname(config)
            == config.container.hostname@,
        config.container.hostname@.len() == 0 ==> settled_hostname(config)
            == config.container.name@,
{
}

/// A root that is to be installed need not be there yet, and nothing else is
/// taken for granted of the host. Its place may not lead upwards.
pub proof fn law_installations_need_no_root(config: &Config, facts: HostFacts, other: HostFacts)
    requires
        facts.dns == other.dns,
        facts.sources == other.sources,
        facts.environment_file == other.environment_file,
    ensures
        once_installed(facts) == once_installed(other),
        once_installed(facts).dns == facts.dns,
        once_installed(facts).sources == facts.sources,
        once_installed(facts).environment_file == facts.environment_file,
        facts.rootfs_is_directory && facts.image_exists && facts.init_exists ==> once_installed(
            facts,
        ) == facts,
        target_climbs(config) <==> (config.container.rootfs is Some && split_on(
            config.container.rootfs->0@,
            '/',
        ).contains(seq!['.', '.'])) || (config.container.rootfs_image is Some && split_on(
            config.container.rootfs_image->0@,
            '/',
        ).contains(seq!['.', '.'])),
{
    if config.container.rootfs is Some {
        law_climbing_paths(config.container.rootfs->0@);
    }
    if config.container.rootfs_image is Some {
        law_climbing_paths(config.container.rootfs_image->0@);
    }
}

proof fn lemma_dns_told(valid: Seq<bool>, i: int)
    requires
        0 <= i <= valid.len() <= usize::MAX,
    ensures
        dns_error(valid, i) matches Some(error) ==> (error matches ConfigError::Dns(k) && i <= k
            < valid.len() && !valid[k as int]),
    decreases valid.len() - i,
{
    if i < valid.len() {
        lemma_dns_told(valid, i + 1);
    }
}

proof fn lemma_mount_told(mounts: Seq<BindMount>, sources: Seq<bool>, i: int)
    requires
        0 <= i <= mounts.len() <= usize::MAX,
    ensures
        mount_error(mounts, sources, i) matches Some(error) ==> match error {
            ConfigError::SourceMissing(k) => i <= k < mounts.len() && !sources[k as int],
            ConfigError::UnsafeTarget(k) => i <= k < mounts.len() && !bind_target(
                mounts[k as int].target@,
            ),
            _ => false,
        },
    decreases mounts.len() - i,
{
    if i < mounts.len() {
        lemma_mount_told(mounts, sources, i + 1);
    }
}

proof fn lemma_key_told(pairs: Seq<Pair>, i: int)
    requires
        0 <= i <= pairs.len() <= usize::MAX,
    ensures
        key_error(pairs, i) matches Some(error) ==> (error matches ConfigError::EnvironmentKey(k)
            && i <= k < pairs.len() && !variable_name(pairs[k as int].0)),
    decreases pairs.len() - i,
{
    if i < pairs.len() {
        lemma_key_told(pairs, i + 1);
    }
}

/// Whether two ports of a list share a port of the host.
pub open spec fn share_host_port(
    ports: Seq<PortForward>,
    i: int,
    j: int,
    number: u16,
    protocol: Protocol,
) -> bool {
    0 <= i < j < ports.len() && ports[i].protocol == protocol && ports[j].protocol == protocol
        && ports[i].host == number && ports[j].host == number
}

/// Whether two ports of a list share a port of the container.
pub open spec fn share_container_port(
    ports: Seq<PortForward>,
    i: int,
    j: int,
    number: u16,
    protocol: Protocol,
) -> bool {
    0 <= i < j < ports.len() && ports[i].protocol == protocol && ports[j].protocol == protocol
        && ports[i].container == number && ports[j].container == number
}

/// Whether a port of the host is forwarded twice.
pub open spec fn host_port_twice(ports: Seq<PortForward>, number: u16, protocol: Protocol) -> bool {
    exists|i: int, j: int| #[trigger] share_host_port(ports, i, j, number, protocol)
}

/// Whether a port of the container is forwarded to twice.
pub open spec fn container_port_twice(
    ports: Seq<PortForward>,
    number: u16,
    protocol: Protocol,
) -> bool {
    exists|i: int, j: int| #[trigger] share_container_port(ports, i, j, number, protocol)
}

/// Whether an error tells of two ports that a list really has.
pub open spec fn conflict_told(ports: Seq<PortForward>, error: ConfigError) -> bool {
    match error {
        ConfigError::DuplicateHostPort(number, protocol) => host_port_twice(
            ports,
            number,
            protocol,
        ),
        ConfigError::DuplicateContainerPort(number, protocol) => container_port_twice(
            ports,
            number,
            protocol,
        ),
        _ => false,
    }
}

proof fn lemma_conflict_told(ports: Seq<PortForward>, i: int, j: int)
    requires
        0 <= i < j <= ports.len(),
    ensures
        conflict_with(ports, i, j) matches Some(error) ==> conflict_told(ports, error),
    decreases ports.len() - j,
{
    if j < ports.len() {
        lemma_conflict_told(ports, i, j + 1);
        let port = ports[i];
        let other = ports[j];
        if conflict(port, other) is Some {
            let error = conflict(port, other)->0;
            assert(conflict_with(ports, i, j) == Some(error));
            if port.host == other.host {
                assert(share_host_port(ports, i, j, port.host, port.protocol));
                assert(host_port_twice(ports, port.host, port.protocol));
            } else {
                assert(share_container_port(ports, i, j, port.container, port.protocol));
                assert(container_port_twice(ports, port.container, port.protocol));
            }
        } else {
            assert(conflict_with(ports, i, j) == conflict_with(ports, i, j + 1));
        }
    }
}

proof fn lemma_conflicts_told(ports: Seq<PortForward>, i: int)
    requires
        0 <= i <= ports.len(),
    ensures
        port_conflict(ports, i) matches Some(error) ==> conflict_told(ports, error),
    decreases ports.len() - i,
{
    if i < ports.len() {
        lemma_conflict_told(ports, i, i + 1);
        lemma_conflicts_told(ports, i + 1);
    }
}

/// A configuration is refused for what is wrong with it: the rule that is told
/// is one that it breaks.
pub proof fn law_told_rules_are_broken(config: &Config, facts: &HostFacts)
    requires
        facts.of(config),
        config.container.mounts@.len() <= usize::MAX,
        config.container.network_options.dns@.len() <= usize::MAX,
        config.container.environment.pairs().len() <= usize::MAX,
    ensures
        ({
            let container = config.container;
            let options = container.network_options;
            let resources = container.resources;
            validation_error(config, facts) matches Some(error) ==> match error {
                ConfigError::Name => !container_name(container.name@),
                ConfigError::WorkdirRelative => !absolute(config.runtime.workdir@),
                ConfigError::RootfsChoice => (container.rootfs is Some && container.rootfs_image
                    is Some) || (container.rootfs is None && container.rootfs_image is None),
                ConfigError::TargetClimbs => false,
                ConfigError::RootfsRelative => container.rootfs is Some && !absolute(
                    container.rootfs->0@,
                ),
                ConfigError::RootfsNotDirectory => container.rootfs is Some
                    && !facts.rootfs_is_directory,
                ConfigError::ImageRelative => container.rootfs_image is Some && !absolute(
                    container.rootfs_image->0@,
                ),
                ConfigError::ImageMissing => container.rootfs_image is Some && !facts.image_exists,
                ConfigError::InitRelative => !absolute(container.init@),
                ConfigError::StopTimeout => config.runtime.stop_timeout_seconds == 0,
                ConfigError::Prefix => options.prefix >= 33,
                ConfigError::Bridge => !interface_name(options.bridge@),
                ConfigError::GatewayBridge => !interface_name(options.gateway_bridge@)
                    && container.network != NetworkMode::Host && container.network
                    != NetworkMode::Isolated && container.network != NetworkMode::Nat,
                ConfigError::Dns(k) => k < facts.dns@.len() && !facts.dns@[k as int],
                ConfigError::ZeroPort => exists|k: int|
                    0 <= k < options.ports@.len() && ((#[trigger] options.ports@[k]).host == 0
                        || options.ports@[k].container == 0),
                ConfigError::DuplicateHostPort(number, protocol) => conflict_told(
                    options.ports@,
                    error,
                ),
                ConfigError::DuplicateContainerPort(number, protocol) => conflict_told(
                    options.ports@,
                    error,
                ),
                ConfigError::Memory => resources.memory_bytes is Some && resources.memory_bytes->0
                    < 4 * 1024 * 1024,
                ConfigError::CpuQuota => resources.cpu_quota is Some && resources.cpu_quota->0
                    < 1000,
                ConfigError::CpuPeriod => resources.cpu_period == Some(0u64),
                ConfigError::CpuPair => (resources.cpu_quota is Some && resources.cpu_period is None)
                    || (resources.cpu_quota is None && resources.cpu_period is Some),
                ConfigError::Pids => resources.pids is Some && (resources.pids->0 == 0
                    || resources.pids->0 > 4 * 1024 * 1024),
                ConfigError::InitMissing => container.rootfs is Some && !facts.init_exists,
                ConfigError::SourceMissing(k) => k < container.mounts@.len()
                    && !facts.sources@[k as int],
                ConfigError::UnsafeTarget(k) => k < container.mounts@.len() && !bind_target(
                    container.mounts@[k as int].target@,
                ),
                ConfigError::EnvironmentKey(k) => k < container.environment.pairs().len()
                    && !variable_name(container.environment.pairs()[k as int].0),
                ConfigError::EnvironmentNul => some_value_holds_nul(container.environment.pairs()),
                ConfigError::EnvironmentFileMissing => container.environment_file is Some
                    && facts.environment_file is Missing,
                ConfigError::EnvironmentFileUnreadable => container.environment_file is Some
                    && facts.environment_file is Unreadable,
                ConfigError::EnvironmentFile(fault) => container.environment_file is Some && (
                facts.environment_file matches EnvironmentSource::Text(text) && file_meaning(text@)
                    == Err::<Map<Seq<char>, Seq<char>>, EnvironmentError>(fault)),
            }
        }),
{
    let container = config.container;
    lemma_dns_told(facts.dns@, 0);
    lemma_mount_told(container.mounts@, facts.sources@, 0);
    lemma_key_told(container.environment.pairs(), 0);
    lemma_conflicts_told(container.network_options.ports@, 0);
}

/// The rules on what a container is come before those on what it is connected
/// to and may use, and a name that is wrong is told before anything else.
pub proof fn law_first_rules_come_first(config: &Config, facts: &HostFacts)
    ensures
        !container_name(config.container.name@) ==> validation_error(config, facts) == Some(
            ConfigError::Name,
        ),
        container_name(config.container.name@) && !absolute(config.runtime.workdir@)
            ==> validation_error(config, facts) == Some(ConfigError::WorkdirRelative),
        early_error(config, facts) is Some ==> validation_error(config, facts) == early_error(
            config,
            facts,
        ),
        early_error(config, facts) is None && network_error(config, facts) is Some
            ==> validation_error(config, facts) == network_error(config, facts),
        early_error(config, facts) is None && config.container.network_options.prefix > 32
            ==> validation_error(config, facts) == Some(ConfigError::Prefix),
{
}

} // verus!
