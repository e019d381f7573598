//! The init system of a container: how it is told apart, what it needs, and
//! how it is asked to shut down.
use vstd::prelude::*;
use vstd::utf8::encode_utf8;

use crate::config::model::Config;
use crate::edition::Edition;
use crate::helper::signal::Signal;
use crate::path::{
    absolute, below_root, components, is_absolute, join, join_paths, path_components, strip_root,
    Component,
};
use crate::plan::{create_dir_all, symlink, write_file, Action, Steps};
use crate::text::{
    contains_bytes, contains_text, decimal, decimal_text, joined3, lemma_views_empty,
    lemma_views_push, occurs_in, same, views,
};

verus! {

/// The families of init systems.
#[derive(Clone, Copy, Debug, Default, PartialEq, Eq, Structural)]
pub enum InitSystem {
    #[default]
    Unknown,
    Systemd,
    Procd,
    Openrc,
    Runit,
    S6,
    Busybox,
    Sysvinit,
    Custom,
}

impl InitSystem {
    pub open spec fn text(self) -> Seq<char> {
        match self {
            InitSystem::Unknown => "unknown"@,
            InitSystem::Systemd => "systemd"@,
            InitSystem::Procd => "procd"@,
            InitSystem::Openrc => "openrc"@,
            InitSystem::Runit => "runit"@,
            InitSystem::S6 => "s6"@,
            InitSystem::Busybox => "busybox"@,
            InitSystem::Sysvinit => "sysvinit"@,
            InitSystem::Custom => "custom"@,
        }
    }

    /// The name of the family.
    pub fn name(self) -> (name: &'static str)
        ensures
            name@ == self.text(),
    {
        match self {
            InitSystem::Unknown => "unknown",
            InitSystem::Systemd => "systemd",
            InitSystem::Procd => "procd",
            InitSystem::Openrc => "openrc",
            InitSystem::Runit => "runit",
            InitSystem::S6 => "s6",
            InitSystem::Busybox => "busybox",
            InitSystem::Sysvinit => "sysvinit",
            InitSystem::Custom => "custom",
        }
    }
}

// ---------------------------------------------------------------------------
// Before the container starts
// ---------------------------------------------------------------------------
/// The init program of a container.
pub struct Init {
    pub path: String,
}

/// What the host says of the init program.
#[derive(Clone, Copy, Debug, PartialEq, Eq, Structural)]
pub struct InitFile {
    /// It is a regular file.
    pub regular: bool,
    /// Its permission bits.
    pub mode: u32,
}

/// Why an init program cannot be used.
#[derive(Clone, Copy, Debug, PartialEq, Eq, Structural)]
pub enum InitError {
    Relative,
    Missing,
    NotRegular,
    NotExecutable,
}

/// Why an init program at a path cannot be used; `file` is what stands there,
/// if anything does.
pub open spec fn init_error(path: Seq<char>, file: Option<InitFile>) -> Option<InitError> {
    if !absolute(path) {
        Some(InitError::Relative)
    } else {
        match file {
            None => Some(InitError::Missing),
            Some(file) => if !file.regular {
                Some(InitError::NotRegular)
            } else if file.mode & 0o111 == 0 {
                Some(InitError::NotExecutable)
            } else {
                None
            },
        }
    }
}

impl Init {
    /// The configured init program.
    pub fn new(config: &Config) -> (init: Init)
        ensures
            init.path@ == config.container.init@,
    {
        Init { path: config.container.init.clone() }
    }

    /// Where the program is in a root; nothing where its path is relative.
    pub fn host_path(&self, rootfs: &str) -> (path: Option<String>)
        ensures
            match path {
                Some(path) => absolute(self.path@) && path@ == join(
                    rootfs@,
                    below_root(self.path@),
                ),
                None => !absolute(self.path@),
            },
    {
        if is_absolute(&self.path) {
            Some(join_paths(rootfs, &strip_root(&self.path)))
        } else {
            None
        }
    }

    /// Whether the program can be executed; `file` is what stands at its path,
    /// if anything does.
    pub fn prepare(&self, file: Option<InitFile>) -> (result: Result<(), InitError>)
        ensures
            match result {
                Ok(()) => init_error(self.path@, file) is None,
                Err(error) => init_error(self.path@, file) == Some(error),
            },
            result == if !absolute(self.path@) {
                Err(InitError::Relative)
            } else {
                match file {
                    None => Err(InitError::Missing),
                    Some(file) => if !file.regular {
                        Err(InitError::NotRegular)
                    } else if file.mode & 0o111 == 0 {
                        Err(InitError::NotExecutable)
                    } else {
                        Ok(())
                    },
                }
            },
    {
        if !is_absolute(&self.path) {
            return Err(InitError::Relative);
        }
        match file {
            None => Err(InitError::Missing),
            Some(file) => if !file.regular {
                Err(InitError::NotRegular)
            } else if file.mode & 0o111 == 0 {
                Err(InitError::NotExecutable)
            } else {
                Ok(())
            },
        }
    }

    /// The family of the configured program.
    pub fn detect(&self, facts: &InitFacts) -> (system: InitSystem)
        requires
            facts.present@.len() == probes().len(),
        ensures
            system == family(self.path@, facts),
    {
        detect(&self.path, facts)
    }
}

/// The files of a root by which init systems are told apart.
pub open spec fn probes() -> Seq<Seq<char>> {
    seq![
        "lib/systemd/systemd"@,
        "usr/lib/systemd/systemd"@,
        "bin/systemd"@,
        "usr/bin/systemd"@,
        "sbin/procd"@,
        "usr/sbin/procd"@,
        "sbin/openrc-init"@,
        "usr/bin/openrc-init"@,
        "sbin/openrc"@,
        "sbin/runit"@,
        "usr/bin/runit"@,
        "bin/s6-svscan"@,
        "usr/bin/s6-svscan"@,
    ]
}

/// The files of a root by which init systems are told apart.
pub fn probe_paths() -> (paths: Vec<String>)
    ensures
        views(paths@) == probes(),
{
    broadcast use {lemma_views_push, lemma_views_empty};

    let mut paths: Vec<String> = Vec::new();
    paths.push("lib/systemd/systemd".to_owned());
    paths.push("usr/lib/systemd/systemd".to_owned());
    paths.push("bin/systemd".to_owned());
    paths.push("usr/bin/systemd".to_owned());
    paths.push("sbin/procd".to_owned());
    paths.push("usr/sbin/procd".to_owned());
    paths.push("sbin/openrc-init".to_owned());
    paths.push("usr/bin/openrc-init".to_owned());
    paths.push("sbin/openrc".to_owned());
    paths.push("sbin/runit".to_owned());
    paths.push("usr/bin/runit".to_owned());
    paths.push("bin/s6-svscan".to_owned());
    paths.push("usr/bin/s6-svscan".to_owned());
    assert(views(paths@) =~= probes());
    paths
}

/// How much of the init program is read to tell its family.
pub const INIT_PREFIX_BYTES: usize = 4096;

/// What the host says of a root.
pub struct InitFacts {
    /// For each of the probed paths, whether it is a file.
    pub present: Vec<bool>,
    /// Where `sbin/init` leads, if it is a symbolic link.
    pub link: Option<String>,
    /// `sbin/init` is a file.
    pub regular: bool,
    /// The beginning of that file; nothing where it cannot be read.
    pub content: Vec<u8>,
}

/// Whether a path is `/sbin/init`, however it is written.
pub open spec fn default_program(path: Seq<char>) -> bool {
    components(path) == seq![
        Component::RootDir,
        Component::Normal("sbin"@),
        Component::Normal("init"@),
    ]
}

/// Whether a text occurs in the link.
pub open spec fn link_holds(facts: &InitFacts, text: Seq<char>) -> bool {
    match facts.link {
        Some(link) => occurs_in(link@, text),
        None => false,
    }
}

/// Whether one of the probed paths from `from` up to `to` is a file.
pub open spec fn some_present(facts: &InitFacts, from: int, to: int) -> bool {
    exists|i: int| from <= i < to && #[trigger] facts.present@[i]
}

/// The family that the contents of an init program point to.
pub open spec fn content_family(content: Seq<u8>) -> InitSystem {
    if occurs_in(content, encode_utf8("systemd"@)) {
        InitSystem::Systemd
    } else if occurs_in(content, encode_utf8("busybox"@)) {
        InitSystem::Busybox
    } else if occurs_in(content, encode_utf8("/nix/store"@)) {
        InitSystem::Unknown
    } else {
        InitSystem::Sysvinit
    }
}

/// The family of an init program in a root.
pub open spec fn family(configured: Seq<char>, facts: &InitFacts) -> InitSystem {
    if !default_program(configured) {
        InitSystem::Custom
    } else if some_present(facts, 0, 4) || link_holds(facts, "systemd"@) {
        InitSystem::Systemd
    } else if some_present(facts, 4, 6) {
        InitSystem::Procd
    } else if some_present(facts, 6, 9) {
        InitSystem::Openrc
    } else if some_present(facts, 9, 11) {
        InitSystem::Runit
    } else if some_present(facts, 11, 13) {
        InitSystem::S6
    } else if facts.link is Some {
        if link_holds(facts, "busybox"@) {
            InitSystem::Busybox
        } else if link_holds(facts, "sysvinit"@) || link_holds(facts, "init.sysv"@) {
            InitSystem::Sysvinit
        } else {
            InitSystem::Unknown
        }
    } else if facts.regular {
        content_family(facts.content@)
    } else {
        InitSystem::Unknown
    }
}

/// Whether a path is `/sbin/init`, however it is written.
fn is_default_program(path: &str) -> (result: bool)
    ensures
        result == default_program(path@),
{
    let all = path_components(path);
    let ghost model = components(path@);
    let ghost wanted = seq![
        Component::RootDir,
        Component::Normal("sbin"@),
        Component::Normal("init"@),
    ];
    assert(model.len() == all@.len());
    if all.len() != 3 {
        return false;
    }
    assert(model[0] == all@[0]@ && model[1] == all@[1]@ && model[2] == all@[2]@);
    let rooted = match &all[0] {
        Component::RootDir => true,
        _ => false,
    };
    let first = match &all[1] {
        Component::Normal(name) => same(name, "sbin"),
        _ => false,
    };
    let second = match &all[2] {
        Component::Normal(name) => same(name, "init"),
        _ => false,
    };
    if rooted && first && second {
        assert(model =~= wanted);
        true
    } else {
        assert(model != wanted) by {
            if model == wanted {
                assert(model[0] == wanted[0] && model[1] == wanted[1] && model[2] == wanted[2]);
            }
        }
        false
    }
}

/// Whether a text occurs in the link.
fn link_contains(facts: &InitFacts, text: &str) -> (result: bool)
    ensures
        result == link_holds(facts, text@),
{
    match &facts.link {
        Some(link) => contains_text(link, text),
        None => false,
    }
}

/// Whether one of the probed paths from `from` up to `to` is a file.
fn any_present(facts: &InitFacts, from: usize, to: usize) -> (result: bool)
    requires
        from <= to <= facts.present@.len(),
    ensures
        result == some_present(facts, from as int, to as int),
{
    let mut i: usize = from;
    while i < to
        invariant
            from <= i <= to <= facts.present@.len(),
            forall|k: int| from <= k < i ==> !#[trigger] facts.present@[k],
        decreases to - i,
    {
        if facts.present[i] {
            assert(facts.present@[i as int]);
            return true;
        }
        i += 1;
    }
    false
}

/// Tells the init system of a root.
pub fn detect(configured: &str, facts: &InitFacts) -> (system: InitSystem)
    requires
        facts.present@.len() == probes().len(),
    ensures
        system == family(configured@, facts),
{
    if !is_default_program(configured) {
        return InitSystem::Custom;
    }
    if any_present(facts, 0, 4) || link_contains(facts, "systemd") {
        return InitSystem::Systemd;
    }
    if any_present(facts, 4, 6) {
        return InitSystem::Procd;
    }
    if any_present(facts, 6, 9) {
        return InitSystem::Openrc;
    }
    if any_present(facts, 9, 11) {
        return InitSystem::Runit;
    }
    if any_present(facts, 11, 13) {
        return InitSystem::S6;
    }
    if facts.link.is_some() {
        if link_contains(facts, "busybox") {
            return InitSystem::Busybox;
        }
        if link_contains(facts, "sysvinit") || link_contains(facts, "init.sysv") {
            return InitSystem::Sysvinit;
        }
        return InitSystem::Unknown;
    }
    if facts.regular {
        if contains_bytes(&facts.content, "systemd".as_bytes()) {
            return InitSystem::Systemd;
        }
        if contains_bytes(&facts.content, "busybox".as_bytes()) {
            return InitSystem::Busybox;
        }
        if contains_bytes(&facts.content, "/nix/store".as_bytes()) {
            return InitSystem::Unknown;
        }
        return InitSystem::Sysvinit;
    }
    InitSystem::Unknown
}

// ---------------------------------------------------------------------------
// While the container boots
// ---------------------------------------------------------------------------
/// The text that replaces how Docker starts on an Android host.
pub open spec fn docker_override() -> Seq<char> {
    "[Service]\nExecStart=\nExecStart=/usr/bin/dockerd -H fd:// --containerd=/run/containerd/containerd.sock --ip6tables=false --iptables=false\n"@
}

/// A configuration file of the edition in a directory.
pub open spec fn drop_in(directory: Seq<char>, edition: Edition) -> Seq<char> {
    directory + "/"@ + edition.product_name() + ".conf"@
}

/// A configuration file of the edition in a directory.
fn drop_in_path(directory: &str, edition: Edition) -> (path: String)
    ensures
        path@ == drop_in(directory@, edition),
{
    let mut path = joined3(directory, "/", edition.product());
    path.append(".conf");
    path
}

/// The steps that replace how Docker starts.
pub open spec fn docker_steps(edition: Edition) -> Steps {
    seq![
        Action::CreateDirAll("/run/systemd/system/docker.service.d"@),
        Action::WriteFile {
            path: drop_in("/run/systemd/system/docker.service.d"@, edition),
            contents: docker_override(),
        },
        Action::CreateDirAll("/run/systemd/system/dockerd.service.d"@),
        Action::WriteFile {
            path: drop_in("/run/systemd/system/dockerd.service.d"@, edition),
            contents: docker_override(),
        },
    ]
}

/// The steps that prepare `/run` for systemd; no other init system needs any.
pub open spec fn runtime_steps(system: InitSystem, edition: Edition, android: bool) -> Steps {
    if system != InitSystem::Systemd {
        Seq::empty()
    } else {
        seq![
            Action::CreateDirAll("/run/systemd/journal"@),
            Action::CreateDirAll("/run/systemd/system"@),
            Action::WriteFile {
                path: "/run/systemd/container"@,
                contents: edition.product_name(),
            },
            Action::CreateDirAll("/run/systemd/system/systemd-journald.service.d"@),
            Action::WriteFile {
                path: drop_in("/run/systemd/system/systemd-journald.service.d"@, edition),
                contents: "[Service]\nImportCredential=\n"@,
            },
        ] + (if android {
            docker_steps(edition)
        } else {
            Seq::empty()
        }) + seq![
            Action::Symlink {
                target: "/dev/null"@,
                link: "/run/systemd/system/systemd-journald-audit.socket"@,
            },
            Action::Symlink {
                target: "/dev/null"@,
                link: "/run/systemd/system/systemd-networkd-wait-online.service"@,
            },
            Action::CreateDirAll("/run/systemd/journald.conf.d"@),
            Action::WriteFile {
                path: drop_in("/run/systemd/journald.conf.d"@, edition),
                contents: "[Journal]\nReadKMsg=no\nAudit=no\nStorage=volatile\n"@,
            },
        ]
    }
}

fn override_docker_startup(plan: &mut Vec<Action<String>>, edition: Edition)
    ensures
        views(final(plan)@) == views(old(plan)@) + docker_steps(edition),
{
    broadcast use {lemma_views_push, lemma_views_empty};

    let contents = "[Service]\nExecStart=\nExecStart=/usr/bin/dockerd -H fd:// --containerd=/run/containerd/containerd.sock --ip6tables=false --iptables=false\n";
    let first = "/run/systemd/system/docker.service.d";
    let second = "/run/systemd/system/dockerd.service.d";
    plan.push(create_dir_all(first));
    plan.push(write_file(&drop_in_path(first, edition), contents));
    plan.push(create_dir_all(second));
    plan.push(write_file(&drop_in_path(second, edition), contents));
    assert(views(plan@) =~= views(old(plan)@) + docker_steps(edition));
}

/// The steps that prepare `/run` for the init system.
pub fn prepare_runtime(system: InitSystem, edition: Edition, android: bool) -> (plan: Vec<
    Action<String>,
>)
    ensures
        views(plan@) == runtime_steps(system, edition, android),
{
    broadcast use {lemma_views_push, lemma_views_empty};

    let mut plan: Vec<Action<String>> = Vec::new();
    if system != InitSystem::Systemd {
        assert(views(plan@) =~= runtime_steps(system, edition, android));
        return plan;
    }
    let journald = "/run/systemd/system/systemd-journald.service.d";
    plan.push(create_dir_all("/run/systemd/journal"));
    plan.push(create_dir_all("/run/systemd/system"));
    plan.push(write_file("/run/systemd/container", edition.product()));
    plan.push(create_dir_all(journald));
    plan.push(
        write_file(&drop_in_path(journald, edition), "[Service]\nImportCredential=\n"),
    );
    if android {
        override_docker_startup(&mut plan, edition);
    }
    plan.push(symlink("/dev/null", "/run/systemd/system/systemd-journald-audit.socket"));
    plan.push(symlink("/dev/null", "/run/systemd/system/systemd-networkd-wait-online.service"));
    plan.push(create_dir_all("/run/systemd/journald.conf.d"));
    plan.push(
        write_file(
            &drop_in_path("/run/systemd/journald.conf.d", edition),
            "[Journal]\nReadKMsg=no\nAudit=no\nStorage=volatile\n",
        ),
    );
    assert(views(plan@) =~= runtime_steps(system, edition, android));
    plan
}

// ---------------------------------------------------------------------------
// When the container is to stop
// ---------------------------------------------------------------------------
/// How an init system is asked to shut down.
#[derive(Clone, Copy, Debug, PartialEq, Eq, Structural)]
pub enum ShutdownRequest {
    Signal(Signal),
    /// The signal at this offset from the first realtime signal.
    Realtime(i32),
    /// A request through the pipe of init, and `Power` where there is none.
    InitControl,
}

/// How an init system is asked to shut down.
pub open spec fn shutdown_of(system: InitSystem) -> ShutdownRequest {
    match system {
        InitSystem::Systemd => ShutdownRequest::Realtime(3),
        InitSystem::Procd => ShutdownRequest::Signal(Signal::User2),
        InitSystem::S6 => ShutdownRequest::Signal(Signal::User2),
        InitSystem::Busybox => ShutdownRequest::Signal(Signal::User2),
        InitSystem::Runit => ShutdownRequest::Signal(Signal::Continue),
        InitSystem::Openrc => ShutdownRequest::Signal(Signal::Power),
        InitSystem::Sysvinit => ShutdownRequest::InitControl,
        InitSystem::Custom => ShutdownRequest::Signal(Signal::Kill),
        InitSystem::Unknown => ShutdownRequest::Signal(Signal::Terminate),
    }
}

/// How an init system is asked to shut down.
pub fn request_shutdown(system: InitSystem) -> (request: ShutdownRequest)
    ensures
        request == shutdown_of(system),
{
    match system {
        InitSystem::Systemd => ShutdownRequest::Realtime(3),
        InitSystem::Procd | InitSystem::S6 | InitSystem::Busybox => ShutdownRequest::Signal(
            Signal::User2,
        ),
        InitSystem::Runit => ShutdownRequest::Signal(Signal::Continue),
        InitSystem::Openrc => ShutdownRequest::Signal(Signal::Power),
        InitSystem::Sysvinit => ShutdownRequest::InitControl,
        InitSystem::Custom => ShutdownRequest::Signal(Signal::Kill),
        InitSystem::Unknown => ShutdownRequest::Signal(Signal::Terminate),
    }
}

/// Where the pipe of the init process may be, in order.
pub fn init_control_paths(pid: u32) -> (paths: Vec<String>)
    ensures
        views(paths@) == seq![
            "/proc/"@ + decimal(pid as nat) + "/root/run/initctl"@,
            "/proc/"@ + decimal(pid as nat) + "/root/dev/initctl"@,
        ],
{
    broadcast use {lemma_views_push, lemma_views_empty};

    let number = decimal_text(pid as u64);
    let mut paths: Vec<String> = Vec::new();
    paths.push(joined3("/proc/", &number, "/root/run/initctl"));
    paths.push(joined3("/proc/", &number, "/root/dev/initctl"));
    assert(views(paths@) =~= seq![
        "/proc/"@ + decimal(pid as nat) + "/root/run/initctl"@,
        "/proc/"@ + decimal(pid as nat) + "/root/dev/initctl"@,
    ]);
    paths
}

/// The bytes of a number, the lowest first.
pub open spec fn lowest_first(value: i32) -> Seq<u8> {
    Seq::new(4, |i: int| ((value as u32) >> ((8 * i) as u32)) as u8)
}

/// Whether the bytes are those of a number in the order of some machine.
pub open spec fn machine_bytes(bytes: Seq<u8>, value: i32) -> bool {
    bytes == lowest_first(value) || bytes == lowest_first(value).reverse()
}

/// `i32::to_ne_bytes`: the bytes of a number in the order of this machine.
/// Which order that is differs from one machine to the next.
#[verifier::external_body]
fn native_bytes(value: i32) -> (bytes: [u8; 4])
    ensures
        machine_bytes(bytes@, value),
{
    value.to_ne_bytes()
}

/// The four numbers at the head of a request to init: its magic number, the
/// change of the run level, the level for power off, and the time to wait.
pub open spec fn request_words() -> Seq<i32> {
    seq![0x0309_1969, 1, 0x30, 3]
}

/// The bytes of a number in one of the two orders.
pub open spec fn ordered_bytes(value: i32, low_first: bool) -> Seq<u8> {
    if low_first {
        lowest_first(value)
    } else {
        lowest_first(value).reverse()
    }
}

/// Whether a request begins with its numbers, all of them in one order.
pub open spec fn begins_with_words(request: Seq<u8>, low_first: bool) -> bool {
    forall|k: int|
        0 <= k < 4 ==> #[trigger] request.subrange(4 * k, 4 * k + 4) == ordered_bytes(
            request_words()[k],
            low_first,
        )
}

/// Adds the bytes of a number.
fn push_word(request: &mut Vec<u8>, value: i32, low_first: bool)
    ensures
        final(request)@ == old(request)@ + ordered_bytes(value, low_first),
{
    let bits: u32 = value as u32;
    let a: u8 = (bits >> 0u32) as u8;
    let b: u8 = (bits >> 8u32) as u8;
    let c: u8 = (bits >> 16u32) as u8;
    let d: u8 = (bits >> 24u32) as u8;
    assert(lowest_first(value) =~= seq![a, b, c, d]);
    if low_first {
        request.push(a);
        request.push(b);
        request.push(c);
        request.push(d);
    } else {
        request.push(d);
        request.push(c);
        request.push(b);
        request.push(a);
    }
    assert(request@ =~= old(request)@ + ordered_bytes(value, low_first));
}

/// The request to init to power off, where `magic` holds the bytes of its magic
/// number in the order of a machine: four numbers in that order, and zeros
/// after them.
pub fn init_request_from(magic: [u8; 4]) -> (request: Vec<u8>)
    ensures
        request@.len() == 384,
        begins_with_words(request@, magic@[0] == 0x69),
        machine_bytes(magic@, request_words()[0]) ==> request@.take(4) == magic@,
        forall|i: int| 16 <= i < 384 ==> #[trigger] request@[i] == 0,
{
    let low_first = magic[0] == 0x69;
    let mut request: Vec<u8> = Vec::new();
    push_word(&mut request, 0x0309_1969, low_first);
    push_word(&mut request, 1, low_first);
    push_word(&mut request, 0x30, low_first);
    push_word(&mut request, 3, low_first);
    let ghost words = request@;
    assert(words.len() == 16);
    while request.len() < 384
        invariant
            16 <= request@.len() <= 384,
            words.len() == 16,
            request@.take(16) == words,
            forall|i: int| 16 <= i < request@.len() ==> #[trigger] request@[i] == 0,
        decreases 384 - request.len(),
    {
        request.push(0);
        assert(request@.take(16) =~= words);
    }
    assert forall|k: int| 0 <= k < 4 implies #[trigger] request@.subrange(4 * k, 4 * k + 4)
        == ordered_bytes(request_words()[k], low_first) by {
        assert(request@.subrange(4 * k, 4 * k + 4) =~= words.subrange(4 * k, 4 * k + 4));
        assert(words.subrange(4 * k, 4 * k + 4) =~= ordered_bytes(
            request_words()[k],
            low_first,
        ));
    }
    assert(begins_with_words(request@, low_first));
    proof {
        lemma_magic_bytes();
        let first: int = 0;
        assert(request@.subrange(4 * first, 4 * first + 4) == ordered_bytes(
            request_words()[first],
            low_first,
        ));
        assert(request@.take(4) =~= request@.subrange(4 * first, 4 * first + 4));
    }
    request
}

/// The first byte of the magic number tells the order of its bytes.
proof fn lemma_magic_bytes()
    ensures
        lowest_first(0x0309_1969)[0] == 0x69,
        lowest_first(0x0309_1969).reverse()[0] != 0x69,
{
    assert((0x0309_1969u32 >> 0u32) as u8 == 0x69) by (bit_vector);
    assert((0x0309_1969u32 >> 24u32) as u8 == 0x03) by (bit_vector);
    assert(lowest_first(0x0309_1969)[3] == 0x03);
}

/// The request to init to power off, in the order of this machine.
pub fn init_request() -> (request: Vec<u8>)
    ensures
        request@.len() == 384,
        machine_bytes(request@.take(4), request_words()[0]),
        begins_with_words(request@, request@[0] == 0x69),
        forall|i: int| 16 <= i < 384 ==> #[trigger] request@[i] == 0,
{
    let magic = native_bytes(0x0309_1969);
    let request = init_request_from(magic);
    assert(request@.take(4)[0] == magic@[0]);
    request
}

// ---------------------------------------------------------------------------
// What holds of every init system
// ---------------------------------------------------------------------------
/// An init program can be executed exactly where its path is absolute and a
/// regular file stands there that somebody may execute.
pub proof fn law_init_is_executable(path: Seq<char>, file: Option<InitFile>)
    ensures
        init_error(path, file) is None <==> path.len() > 0 && path[0] == '/' && file is Some
            && file->0.regular && ((file->0.mode >> 6) & 1 == 1 || (file->0.mode >> 3) & 1 == 1
            || file->0.mode & 1 == 1),
        init_error(path, file) == Some(InitError::Relative) <==> !(path.len() > 0 && path[0]
            == '/'),
        absolute(path) ==> (init_error(path, file) == Some(InitError::Missing) <==> file is None),
        absolute(path) && file is Some ==> (init_error(path, file) == Some(InitError::NotRegular)
            <==> !file->0.regular),
{
    if file is Some {
        let mode = file->0.mode;
        assert(mode & 0o111 != 0 <==> ((mode >> 6) & 1 == 1 || (mode >> 3) & 1 == 1 || mode & 1
            == 1)) by (bit_vector);
    }
}

/// Whether a root has a file.
pub open spec fn root_has(facts: &InitFacts, name: Seq<char>) -> bool {
    exists|i: int| 0 <= i < probes().len() && #[trigger] probes()[i] == name && facts.present@[i]
}

/// Whether a root has a file of systemd.
pub open spec fn has_systemd(facts: &InitFacts) -> bool {
    root_has(facts, "lib/systemd/systemd"@) || root_has(facts, "usr/lib/systemd/systemd"@)
        || root_has(facts, "bin/systemd"@) || root_has(facts, "usr/bin/systemd"@)
}

/// Whether a root has a file of procd.
pub open spec fn has_procd(facts: &InitFacts) -> bool {
    root_has(facts, "sbin/procd"@) || root_has(facts, "usr/sbin/procd"@)
}

/// Whether a root has a file of OpenRC.
pub open spec fn has_openrc(facts: &InitFacts) -> bool {
    root_has(facts, "sbin/openrc-init"@) || root_has(facts, "usr/bin/openrc-init"@) || root_has(
        facts,
        "sbin/openrc"@,
    )
}

/// Whether a root has a file of runit.
pub open spec fn has_runit(facts: &InitFacts) -> bool {
    root_has(facts, "sbin/runit"@) || root_has(facts, "usr/bin/runit"@)
}

/// Whether a root has a file of s6.
pub open spec fn has_s6(facts: &InitFacts) -> bool {
    root_has(facts, "bin/s6-svscan"@) || root_has(facts, "usr/bin/s6-svscan"@)
}

proof fn lemma_probe(facts: &InitFacts, i: int)
    requires
        0 <= i < 13,
        facts.present@.len() == 13,
        forall|j: int|
            0 <= j < 13 && j != i ==> #[trigger] probes()[j] != probes()[i],
    ensures
        root_has(facts, probes()[i]) <==> facts.present@[i],
{
}

proof fn lemma_probes_differ()
    ensures
        forall|i: int, j: int|
            #![trigger probes()[i], probes()[j]]
            0 <= i < 13 && 0 <= j < 13 && i != j ==> probes()[i] != probes()[j],
{
    reveal_strlit("lib/systemd/systemd");
    reveal_strlit("usr/lib/systemd/systemd");
    reveal_strlit("bin/systemd");
    reveal_strlit("usr/bin/systemd");
    reveal_strlit("sbin/procd");
    reveal_strlit("usr/sbin/procd");
    reveal_strlit("sbin/openrc-init");
    reveal_strlit("usr/bin/openrc-init");
    reveal_strlit("sbin/openrc");
    reveal_strlit("sbin/runit");
    reveal_strlit("usr/bin/runit");
    reveal_strlit("bin/s6-svscan");
    reveal_strlit("usr/bin/s6-svscan");
    assert("lib/systemd/systemd"@.len() == 19 && "usr/lib/systemd/systemd"@.len() == 23
        && "bin/systemd"@.len() == 11 && "usr/bin/systemd"@.len() == 15 && "sbin/procd"@.len()
        == 10 && "usr/sbin/procd"@.len() == 14 && "sbin/openrc-init"@.len() == 16
        && "usr/bin/openrc-init"@.len() == 19 && "sbin/openrc"@.len() == 11 && "sbin/runit"@.len()
        == 10 && "usr/bin/runit"@.len() == 13 && "bin/s6-svscan"@.len() == 13
        && "usr/bin/s6-svscan"@.len() == 17);
    assert("lib/systemd/systemd"@[0] == 'l' && "usr/bin/openrc-init"@[0] == 'u');
    assert("bin/systemd"@[0] == 'b' && "sbin/openrc"@[0] == 's');
    assert("sbin/procd"@[5] == 'p' && "sbin/runit"@[5] == 'r');
    assert("usr/bin/runit"@[0] == 'u' && "bin/s6-svscan"@[0] == 'b');
}

proof fn lemma_probed(facts: &InitFacts)
    requires
        facts.present@.len() == 13,
    ensures
        some_present(facts, 0, 4) <==> has_systemd(facts),
        some_present(facts, 4, 6) <==> has_procd(facts),
        some_present(facts, 6, 9) <==> has_openrc(facts),
        some_present(facts, 9, 11) <==> has_runit(facts),
        some_present(facts, 11, 13) <==> has_s6(facts),
{
    lemma_probes_differ();
    let p = facts.present@;
    lemma_probe(facts, 0);
    lemma_probe(facts, 1);
    lemma_probe(facts, 2);
    lemma_probe(facts, 3);
    lemma_probe(facts, 4);
    lemma_probe(facts, 5);
    lemma_probe(facts, 6);
    lemma_probe(facts, 7);
    lemma_probe(facts, 8);
    lemma_probe(facts, 9);
    lemma_probe(facts, 10);
    lemma_probe(facts, 11);
    lemma_probe(facts, 12);
    assert(some_present(facts, 0, 4) <==> p[0] || p[1] || p[2] || p[3]);
    assert(some_present(facts, 4, 6) <==> p[4] || p[5]);
    assert(some_present(facts, 6, 9) <==> p[6] || p[7] || p[8]);
    assert(some_present(facts, 9, 11) <==> p[9] || p[10]);
    assert(some_present(facts, 11, 13) <==> p[11] || p[12]);
}

/// An init system is told by its files, the more particular before the more
/// common; where there are none, by where the init program leads, and where it
/// leads nowhere, by what it holds. Any program but the usual one is custom.
#[verifier::rlimit(40)]
pub proof fn law_init_systems_are_told_apart(configured: Seq<char>, facts: &InitFacts)
    requires
        facts.present@.len() == 13,
    ensures
        ({
            let system = family(configured, facts);
            let usual = default_program(configured);
            let systemd = has_systemd(facts) || (facts.link is Some && occurs_in(
                facts.link->0@,
                "systemd"@,
            ));
            let particular = systemd || has_procd(facts) || has_openrc(facts) || has_runit(facts)
                || has_s6(facts);
            &&& system == InitSystem::Custom <==> !usual
            &&& usual && systemd ==> system == InitSystem::Systemd
            &&& usual && !systemd && has_procd(facts) ==> system == InitSystem::Procd
            &&& usual && !systemd && !has_procd(facts) && has_openrc(facts) ==> system
                == InitSystem::Openrc
            &&& usual && !systemd && !has_procd(facts) && !has_openrc(facts) && has_runit(facts)
                ==> system == InitSystem::Runit
            &&& usual && !systemd && !has_procd(facts) && !has_openrc(facts) && !has_runit(facts)
                && has_s6(facts) ==> system == InitSystem::S6
            &&& usual && !particular && facts.link is Some ==> system == if occurs_in(
                facts.link->0@,
                "busybox"@,
            ) {
                InitSystem::Busybox
            } else if occurs_in(facts.link->0@, "sysvinit"@) || occurs_in(
                facts.link->0@,
                "init.sysv"@,
            ) {
                InitSystem::Sysvinit
            } else {
                InitSystem::Unknown
            }
            &&& usual && !particular && facts.link is None && !facts.regular ==> system
                == InitSystem::Unknown
            &&& usual && !particular && facts.link is None && facts.regular ==> {
                let holds = |text: Seq<char>| occurs_in(facts.content@, encode_utf8(text));
                &&& holds("systemd"@) ==> system == InitSystem::Systemd
                &&& !holds("systemd"@) && holds("busybox"@) ==> system == InitSystem::Busybox
                &&& !holds("systemd"@) && !holds("busybox"@) && holds("/nix/store"@) ==> system
                    == InitSystem::Unknown
                &&& !holds("systemd"@) && !holds("busybox"@) && !holds("/nix/store"@) ==> system
                    == InitSystem::Sysvinit
            }
        }),
{
    lemma_probed(facts);
}

/// Each init system is asked to shut down in its own way.
pub proof fn law_shutdowns_suit_the_system(system: InitSystem)
    ensures
        shutdown_of(system) == ShutdownRequest::Realtime(3) <==> system == InitSystem::Systemd,
        shutdown_of(system) == ShutdownRequest::InitControl <==> system == InitSystem::Sysvinit,
        shutdown_of(system) == ShutdownRequest::Signal(Signal::User2) <==> system
            == InitSystem::Procd || system == InitSystem::S6 || system == InitSystem::Busybox,
        shutdown_of(system) == ShutdownRequest::Signal(Signal::Continue) <==> system
            == InitSystem::Runit,
        shutdown_of(system) == ShutdownRequest::Signal(Signal::Power) <==> system
            == InitSystem::Openrc,
        shutdown_of(system) == ShutdownRequest::Signal(Signal::Kill) <==> system
            == InitSystem::Custom,
        shutdown_of(system) == ShutdownRequest::Signal(Signal::Terminate) <==> system
            == InitSystem::Unknown,
{
}

/// The name of an edition's file in a directory.
pub open spec fn edition_file(edition: Edition) -> Seq<char> {
    if edition == Edition::Gnosis {
        "/gnosis.conf"@
    } else {
        "/kurumi-containerd.conf"@
    }
}

proof fn lemma_drop_in(directory: Seq<char>, edition: Edition)
    ensures
        drop_in(directory, edition) == directory + edition_file(edition),
{
    reveal_strlit("/");
    reveal_strlit("gnosis");
    reveal_strlit("kurumi-containerd");
    reveal_strlit(".conf");
    reveal_strlit("/gnosis.conf");
    reveal_strlit("/kurumi-containerd.conf");
    assert(drop_in(directory, edition) =~= directory + edition_file(edition));
}

/// Systemd learns that it runs in a container, and what its journal cannot do
/// there; two units that would wait for what a container does not have are
/// masked, and on Android Docker starts without the firewall. Each file is
/// written into a directory that is made first. No other system needs any of
/// this.
#[verifier::rlimit(60)]
pub proof fn law_systemd_is_prepared(system: InitSystem, edition: Edition, android: bool)
    ensures
        ({
            let steps = runtime_steps(system, edition, android);
            let file = edition_file(edition);
            &&& system != InitSystem::Systemd ==> steps.len() == 0
            &&& system == InitSystem::Systemd ==> {
                &&& steps.contains(Action::CreateDirAll("/run/systemd/journal"@))
                &&& steps[1] == Action::CreateDirAll("/run/systemd/system"@)
                &&& steps[2] == (Action::WriteFile {
                    path: "/run/systemd/container"@,
                    contents: if edition == Edition::Gnosis {
                        "gnosis"@
                    } else {
                        "kurumi-containerd"@
                    },
                })
                &&& steps[3] == Action::CreateDirAll(
                    "/run/systemd/system/systemd-journald.service.d"@,
                )
                &&& steps[4] == (Action::WriteFile {
                    path: "/run/systemd/system/systemd-journald.service.d"@ + file,
                    contents: "[Service]\nImportCredential=\n"@,
                })
                &&& steps.contains(
                    Action::Symlink {
                        target: "/dev/null"@,
                        link: "/run/systemd/system/systemd-journald-audit.socket"@,
                    },
                )
                &&& steps.contains(
                    Action::Symlink {
                        target: "/dev/null"@,
                        link: "/run/systemd/system/systemd-networkd-wait-online.service"@,
                    },
                )
                &&& steps[steps.len() - 2] == Action::CreateDirAll(
                    "/run/systemd/journald.conf.d"@,
                )
                &&& steps.last() == (Action::WriteFile {
                    path: "/run/systemd/journald.conf.d"@ + file,
                    contents: "[Journal]\nReadKMsg=no\nAudit=no\nStorage=volatile\n"@,
                })
                &&& android ==> {
                    &&& steps[5] == Action::CreateDirAll("/run/systemd/system/docker.service.d"@)
                    &&& steps[6] == (Action::WriteFile {
                        path: "/run/systemd/system/docker.service.d"@ + file,
                        contents: "[Service]\nExecStart=\nExecStart=/usr/bin/dockerd -H fd:// --containerd=/run/containerd/containerd.sock --ip6tables=false --iptables=false\n"@,
                    })
                    &&& steps[7] == Action::CreateDirAll("/run/systemd/system/dockerd.service.d"@)
                    &&& steps[8] == (Action::WriteFile {
                        path: "/run/systemd/system/dockerd.service.d"@ + file,
                        contents: "[Service]\nExecStart=\nExecStart=/usr/bin/dockerd -H fd:// --containerd=/run/containerd/containerd.sock --ip6tables=false --iptables=false\n"@,
                    })
                }
                &&& steps.len() == if android {
                    13int
                } else {
                    9
                }
            }
        }),
{
    let steps = runtime_steps(system, edition, android);
    lemma_drop_in("/run/systemd/system/systemd-journald.service.d"@, edition);
    lemma_drop_in("/run/systemd/journald.conf.d"@, edition);
    lemma_drop_in("/run/systemd/system/docker.service.d"@, edition);
    lemma_drop_in("/run/systemd/system/dockerd.service.d"@, edition);
    if system == InitSystem::Systemd {
        let at: int = if android {
            9
        } else {
            5
        };
        assert(steps[0] == Action::CreateDirAll("/run/systemd/journal"@));
        assert(steps[at] == (Action::Symlink {
            target: "/dev/null"@,
            link: "/run/systemd/system/systemd-journald-audit.socket"@,
        }));
        assert(steps[at + 1] == (Action::Symlink {
            target: "/dev/null"@,
            link: "/run/systemd/system/systemd-networkd-wait-online.service"@,
        }));
        if android {
            let docker = docker_steps(edition);
            assert(steps[5] == docker[0]);
            assert(steps[6] == docker[1]);
            assert(steps[7] == docker[2]);
            assert(steps[8] == docker[3]);
        }
    }
}

/// A request to init carries its magic number, asks for a change of the run
/// level to that of power off, and gives processes three seconds, each as four
/// bytes in the order of the machine.
pub proof fn law_requests_ask_for_power_off(request: Seq<u8>)
    requires
        request.len() == 384,
    ensures
        begins_with_words(request, true) <==> request.take(16) == seq![
            0x69u8, 0x19, 0x09, 0x03, 1, 0, 0, 0, '0' as u8, 0, 0, 0, 3, 0, 0, 0,
        ],
        begins_with_words(request, false) <==> request.take(16) == seq![
            0x03u8, 0x09, 0x19, 0x69, 0, 0, 0, 1, 0, 0, 0, '0' as u8, 0, 0, 0, 3,
        ],
        machine_bytes(request.take(4), request_words()[0]) <==> request.take(4) == seq![
            0x69u8, 0x19, 0x09, 0x03,
        ] || request.take(4) == seq![0x03u8, 0x09, 0x19, 0x69],
        INIT_PREFIX_BYTES == 4096,
{
    lemma_request_bytes();
    lemma_four_words(request, true);
    lemma_four_words(request, false);
    assert(seq![0x69u8, 0x19, 0x09, 0x03] + seq![1u8, 0, 0, 0] + seq![0x30u8, 0, 0, 0] + seq![
        3u8,
        0,
        0,
        0,
    ] =~= seq![0x69u8, 0x19, 0x09, 0x03, 1, 0, 0, 0, '0' as u8, 0, 0, 0, 3, 0, 0, 0]);
    assert(seq![0x03u8, 0x09, 0x19, 0x69] + seq![0u8, 0, 0, 1] + seq![0u8, 0, 0, 0x30] + seq![
        0u8,
        0,
        0,
        3,
    ] =~= seq![0x03u8, 0x09, 0x19, 0x69, 0, 0, 0, 1, 0, 0, 0, '0' as u8, 0, 0, 0, 3]);
}

proof fn lemma_request_bytes()
    ensures
        lowest_first(0x0309_1969) == seq![0x69u8, 0x19, 0x09, 0x03],
        lowest_first(1) == seq![1u8, 0, 0, 0],
        lowest_first(0x30) == seq![0x30u8, 0, 0, 0],
        lowest_first(3) == seq![3u8, 0, 0, 0],
        lowest_first(0x0309_1969).reverse() == seq![0x03u8, 0x09, 0x19, 0x69],
        lowest_first(1).reverse() == seq![0u8, 0, 0, 1],
        lowest_first(0x30).reverse() == seq![0u8, 0, 0, 0x30],
        lowest_first(3).reverse() == seq![0u8, 0, 0, 3],
{
    assert((0x0309_1969u32 >> 0u32) as u8 == 0x69 && (0x0309_1969u32 >> 8u32) as u8 == 0x19 && (
    0x0309_1969u32 >> 16u32) as u8 == 0x09 && (0x0309_1969u32 >> 24u32) as u8 == 0x03)
        by (bit_vector);
    assert((1u32 >> 0u32) as u8 == 1 && (1u32 >> 8u32) as u8 == 0 && (1u32 >> 16u32) as u8 == 0 && (
    1u32 >> 24u32) as u8 == 0) by (bit_vector);
    assert((0x30u32 >> 0u32) as u8 == 0x30 && (0x30u32 >> 8u32) as u8 == 0 && (0x30u32
        >> 16u32) as u8 == 0 && (0x30u32 >> 24u32) as u8 == 0) by (bit_vector);
    assert((3u32 >> 0u32) as u8 == 3 && (3u32 >> 8u32) as u8 == 0 && (3u32 >> 16u32) as u8 == 0 && (
    3u32 >> 24u32) as u8 == 0) by (bit_vector);
    assert(lowest_first(0x0309_1969) =~= seq![0x69u8, 0x19, 0x09, 0x03]);
    assert(lowest_first(1) =~= seq![1u8, 0, 0, 0]);
    assert(lowest_first(0x30) =~= seq![0x30u8, 0, 0, 0]);
    assert(lowest_first(3) =~= seq![3u8, 0, 0, 0]);
    assert(lowest_first(0x0309_1969).reverse() =~= seq![0x03u8, 0x09, 0x19, 0x69]);
    assert(lowest_first(1).reverse() =~= seq![0u8, 0, 0, 1]);
    assert(lowest_first(0x30).reverse() =~= seq![0u8, 0, 0, 0x30]);
    assert(lowest_first(3).reverse() =~= seq![0u8, 0, 0, 3]);
}

proof fn lemma_four_words(request: Seq<u8>, low_first: bool)
    requires
        request.len() == 384,
    ensures
        begins_with_words(request, low_first) <==> request.take(16) == ordered_bytes(
            0x0309_1969,
            low_first,
        ) + ordered_bytes(1, low_first) + ordered_bytes(0x30, low_first) + ordered_bytes(
            3,
            low_first,
        ),
{
    let a = ordered_bytes(0x0309_1969, low_first);
    let b = ordered_bytes(1, low_first);
    let c = ordered_bytes(0x30, low_first);
    let d = ordered_bytes(3, low_first);
    let whole = a + b + c + d;
    let front = request.take(16);
    let words = request_words();
    assert(words[0] == 0x0309_1969 && words[1] == 1 && words[2] == 0x30 && words[3] == 3);
    assert(request.subrange(0, 4) =~= front.subrange(0, 4));
    assert(request.subrange(4, 8) =~= front.subrange(4, 8));
    assert(request.subrange(8, 12) =~= front.subrange(8, 12));
    assert(request.subrange(12, 16) =~= front.subrange(12, 16));
    if begins_with_words(request, low_first) {
        assert(request.subrange(0, 4) == a) by {
            let k: int = 0;
            assert(request.subrange(4 * k, 4 * k + 4) == ordered_bytes(words[k], low_first));
        }
        assert(request.subrange(4, 8) == b) by {
            let k: int = 1;
            assert(request.subrange(4 * k, 4 * k + 4) == ordered_bytes(words[k], low_first));
        }
        assert(request.subrange(8, 12) == c) by {
            let k: int = 2;
            assert(request.subrange(4 * k, 4 * k + 4) == ordered_bytes(words[k], low_first));
        }
        assert(request.subrange(12, 16) == d) by {
            let k: int = 3;
            assert(request.subrange(4 * k, 4 * k + 4) == ordered_bytes(words[k], low_first));
        }
        assert(front =~= front.subrange(0, 4) + front.subrange(4, 8) + front.subrange(8, 12)
            + front.subrange(12, 16));
    }
    if front == whole {
        assert(front.subrange(0, 4) =~= a);
        assert(front.subrange(4, 8) =~= b);
        assert(front.subrange(8, 12) =~= c);
        assert(front.subrange(12, 16) =~= d);
        assert forall|k: int| 0 <= k < 4 implies #[trigger] request.subrange(4 * k, 4 * k + 4)
            == ordered_bytes(words[k], low_first) by {
            assert(k == 0 || k == 1 || k == 2 || k == 3);
        }
    }
}

} // verus!
