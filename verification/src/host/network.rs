//! The network of a container: a pair of links, a bridge, and the firewall
//! rules that carry its traffic.
use vstd::prelude::*;

use crate::config::model::{
    protocol_name, Config, Ipv4Address, NetworkConfig, NetworkMode, PortForward, Protocol,
};
use crate::edition::Edition;
use crate::helper::fs::optional_view;
use crate::path::{join, join_paths, parent, parent_path};
use crate::plan::{create_dir_all, write_file, Action, Steps};
use crate::runtime::execute::first_set;
use crate::runtime::info::{signed_decimal, signed_text};
use crate::text::{
    chars_of, contains_text, copy_texts, decimal, decimal_text, digit_value, joined, joined3,
    lemma_decimal_digits, lemma_views_empty, lemma_views_push, occurs_in, same, text_between, trim,
    trimmed, views,
};

verus! {

/// A list of texts, such as the arguments of a program.
pub type Texts = Seq<Seq<char>>;

// ---------------------------------------------------------------------------
// Programs of the host
// ---------------------------------------------------------------------------
/// The places where a program of the host is looked for first.
pub open spec fn program_places(program: Seq<char>) -> Texts {
    if program == "ip"@ {
        seq!["/system/bin/ip"@, "/usr/sbin/ip"@, "/sbin/ip"@, "/usr/bin/ip"@]
    } else if program == "iptables"@ {
        seq![
            "/system/bin/iptables"@,
            "/usr/sbin/iptables"@,
            "/sbin/iptables"@,
            "/usr/bin/iptables"@,
        ]
    } else {
        Seq::empty()
    }
}

/// The places where a program of the host is looked for first.
pub fn command_places(program: &str) -> (places: Vec<String>)
    ensures
        views(places@) == program_places(program@),
{
    broadcast use {lemma_views_push, lemma_views_empty};

    let mut places: Vec<String> = Vec::new();
    if same(program, "ip") {
        places.push("/system/bin/ip".to_owned());
        places.push("/usr/sbin/ip".to_owned());
        places.push("/sbin/ip".to_owned());
        places.push("/usr/bin/ip".to_owned());
    } else if same(program, "iptables") {
        places.push("/system/bin/iptables".to_owned());
        places.push("/usr/sbin/iptables".to_owned());
        places.push("/sbin/iptables".to_owned());
        places.push("/usr/bin/iptables".to_owned());
    }
    assert(views(places@) =~= program_places(program@));
    places
}

/// The program that is run: the first place at which there is a file, and
/// otherwise the bare name. `present` says of each place whether it is a file.
pub fn command(program: &str, present: &Vec<bool>) -> (executable: String)
    requires
        present@.len() == program_places(program@).len(),
    ensures
        executable@ == match first_set(present@, 0) {
            Some(i) => program_places(program@)[i],
            None => program@,
        },
{
    let places = command_places(program);
    assert(views(places@).len() == places@.len());
    let mut i: usize = 0;
    while i < present.len()
        invariant
            i <= present@.len(),
            present@.len() == places@.len(),
            views(places@) == program_places(program@),
            first_set(present@, 0) == first_set(present@, i as int),
        decreases present.len() - i,
    {
        if present[i] {
            assert(views(places@)[i as int] == places@[i as int]@);
            return places[i].clone();
        }
        i += 1;
    }
    program.to_owned()
}

/// The directories in which a program of the container is looked for.
pub open spec fn program_directories() -> Texts {
    seq!["/usr/sbin"@, "/sbin"@, "/usr/bin"@, "/bin"@, "/system/bin"@]
}

/// The paths at which a program of the container is looked for.
pub fn command_paths(program: &str) -> (paths: Vec<String>)
    ensures
        views(paths@) == program_directories().map_values(
            |directory: Seq<char>| join(directory, program@),
        ),
{
    broadcast use {lemma_views_push, lemma_views_empty};

    let mut paths: Vec<String> = Vec::new();
    paths.push(join_paths("/usr/sbin", program));
    paths.push(join_paths("/sbin", program));
    paths.push(join_paths("/usr/bin", program));
    paths.push(join_paths("/bin", program));
    paths.push(join_paths("/system/bin", program));
    assert(views(paths@) =~= program_directories().map_values(
        |directory: Seq<char>| join(directory, program@),
    ));
    paths
}

/// Whether a program that may find its work done did succeed.
pub fn run_allow_exists(success: bool, errors: &str) -> (result: bool)
    ensures
        result == (success || occurs_in(errors@, "File exists"@)),
{
    success || contains_text(errors, "File exists")
}

/// Texts with spaces between them.
pub open spec fn spaced(texts: Texts) -> Seq<char>
    decreases texts.len(),
{
    if texts.len() == 0 {
        Seq::empty()
    } else if texts.len() == 1 {
        texts[0]
    } else {
        spaced(texts.drop_last()) + " "@ + texts.last()
    }
}

/// What is said of a program that failed.
pub fn failure_text(program: &str, arguments: &Vec<String>, errors: &str) -> (text: String)
    ensures
        text@ == program@ + " "@ + spaced(views(arguments@)) + " failed: "@ + trim(errors@),
{
    let ghost all = views(arguments@);
    let mut line = String::new();
    let mut i: usize = 0;
    assert(all.take(0) =~= Seq::<Seq<char>>::empty());
    while i < arguments.len()
        invariant
            i <= arguments@.len(),
            all == views(arguments@),
            line@ == spaced(all.take(i as int)),
        decreases arguments.len() - i,
    {
        assert(all.take(i + 1).drop_last() =~= all.take(i as int));
        assert(all.take(i + 1).last() == arguments@[i as int]@);
        if i == 0 {
            line = arguments[i].clone();
        } else {
            line.append(" ");
            line.append(&arguments[i]);
        }
        i += 1;
    }
    assert(all.take(i as int) =~= all);
    let mut text = joined3(program, " ", &line);
    text.append(" failed: ");
    let chars = trimmed(&chars_of(errors));
    let tail = text_between(&chars, 0, chars.len());
    assert(tail@ =~= trim(errors@));
    text.append(&tail);
    text
}

// ---------------------------------------------------------------------------
// Addresses
// ---------------------------------------------------------------------------
/// The bits of a network prefix.
pub open spec fn prefix_mask(prefix: u8) -> u32 {
    if prefix == 0 {
        0
    } else {
        0xffff_ffffu32 << ((32 - prefix) as u32)
    }
}

/// The network of an address.
pub open spec fn network_of(address: Ipv4Address, prefix: u8) -> Ipv4Address {
    Ipv4Address { bits: address.bits & prefix_mask(prefix) }
}

/// The network of an address.
pub fn masked_network(address: Ipv4Address, prefix: u8) -> (network: Ipv4Address)
    requires
        prefix <= 32,
    ensures
        network == network_of(address, prefix),
{
    let mask: u32 = if prefix == 0 {
        0
    } else {
        0xffff_ffffu32 << ((32 - prefix) as u32)
    };
    Ipv4Address { bits: address.bits & mask }
}

/// The network of a network is itself.
pub proof fn law_network_is_its_own_network(address: Ipv4Address, prefix: u8)
    requires
        prefix <= 32,
    ensures
        network_of(network_of(address, prefix), prefix) == network_of(address, prefix),
{
    let bits = address.bits;
    let mask = prefix_mask(prefix);
    assert((bits & mask) & mask == bits & mask) by (bit_vector);
}

/// Two addresses are of one network exactly where they agree in the bits of
/// the prefix.
pub proof fn law_addresses_of_one_network(a: Ipv4Address, b: Ipv4Address, prefix: u8)
    requires
        prefix <= 32,
    ensures
        network_of(a, prefix) == network_of(b, prefix) <==> (a.bits ^ b.bits) & prefix_mask(prefix)
            == 0,
{
    let x = a.bits;
    let y = b.bits;
    let mask = prefix_mask(prefix);
    assert((x & mask == y & mask) <==> ((x ^ y) & mask == 0)) by (bit_vector);
}

/// An address with the length of its network's prefix.
pub open spec fn with_prefix(address: Ipv4Address, prefix: u8) -> Seq<char> {
    address.dotted() + "/"@ + decimal(prefix as nat)
}

fn prefixed(address: Ipv4Address, prefix: u8) -> (text: String)
    ensures
        text@ == with_prefix(address, prefix),
{
    joined3(&address.text(), "/", &decimal_text(prefix as u64))
}

// ---------------------------------------------------------------------------
// Rules
// ---------------------------------------------------------------------------
/// The position of the first occurrence of a text from position `i` on, or
/// the number of the texts.
pub open spec fn index_of(texts: Texts, wanted: Seq<char>, i: int) -> int
    decreases texts.len() - i,
{
    if i < 0 || i >= texts.len() {
        texts.len() as int
    } else if texts[i] == wanted {
        i
    } else {
        index_of(texts, wanted, i + 1)
    }
}

proof fn lemma_index_of(texts: Texts, wanted: Seq<char>, i: int)
    requires
        0 <= i <= texts.len(),
    ensures
        i <= index_of(texts, wanted, i) <= texts.len(),
        index_of(texts, wanted, i) < texts.len() ==> texts[index_of(texts, wanted, i)] == wanted,
        forall|k: int| i <= k < index_of(texts, wanted, i) ==> #[trigger] texts[k] != wanted,
    decreases texts.len() - i,
{
    if i < texts.len() && texts[i] != wanted {
        lemma_index_of(texts, wanted, i + 1);
    }
}

fn find_text(texts: &Vec<String>, wanted: &str) -> (at: usize)
    ensures
        at == index_of(views(texts@), wanted@, 0),
        at <= texts@.len(),
{
    let ghost all = views(texts@);
    let mut at: usize = 0;
    while at < texts.len()
        invariant
            at <= texts@.len(),
            all == views(texts@),
            index_of(all, wanted@, 0) == index_of(all, wanted@, at as int),
        decreases texts.len() - at,
    {
        assert(all[at as int] == texts@[at as int]@);
        if same(&texts[at], wanted) {
            return at;
        }
        at += 1;
    }
    at
}

/// The mark by which a rule is known as that of a container.
pub open spec fn rule_mark(edition: Edition, name: Seq<char>, pid: int) -> Seq<char> {
    edition.product_name() + ":"@ + name + ":"@ + signed_decimal(pid)
}

/// The arguments that put the mark on a rule.
pub open spec fn mark_arguments(edition: Edition, name: Seq<char>, pid: int) -> Texts {
    seq!["-m"@, "comment"@, "--comment"@, rule_mark(edition, name, pid)]
}

/// A rule with the mark of a container, in front of its target.
pub open spec fn marked_rule(edition: Edition, name: Seq<char>, pid: int, rule: Texts) -> Texts {
    let at = index_of(rule, "-j"@, 0);
    rule.take(at) + mark_arguments(edition, name, pid) + rule.skip(at)
}

/// A rule with the mark of a container, in front of its target.
pub fn owned_rule(edition: Edition, name: &str, pid: i32, rule: &Vec<String>) -> (owned: Vec<
    String,
>)
    ensures
        views(owned@) == marked_rule(edition, name@, pid as int, views(rule@)),
{
    broadcast use {lemma_views_push, lemma_views_empty};

    let at = find_text(rule, "-j");
    let ghost all = views(rule@);
    let mut owned: Vec<String> = Vec::new();
    let mut i: usize = 0;
    assert(all.take(0) =~= Seq::<Seq<char>>::empty());
    while i < at
        invariant
            i <= at <= rule@.len(),
            all == views(rule@),
            views(owned@) == all.take(i as int),
        decreases at - i,
    {
        broadcast use {lemma_views_push, lemma_views_empty};

        owned.push(rule[i].clone());
        i += 1;
        assert(all.take(i as int) =~= all.take(i - 1).push(rule@[i - 1]@));
    }
    let mut mark = joined3(edition.product(), ":", name);
    mark.append(":");
    mark.append(&signed_text(pid));
    owned.push("-m".to_owned());
    owned.push("comment".to_owned());
    owned.push("--comment".to_owned());
    owned.push(mark);
    let ghost head = all.take(at as int) + mark_arguments(edition, name@, pid as int);
    assert(views(owned@) =~= head);
    assert(head + all.subrange(at as int, at as int) =~= head);
    while i < rule.len()
        invariant
            at <= i <= rule@.len(),
            all == views(rule@),
            views(owned@) == head + all.subrange(at as int, i as int),
        decreases rule.len() - i,
    {
        broadcast use {lemma_views_push, lemma_views_empty};

        owned.push(rule[i].clone());
        i += 1;
        assert(views(owned@) =~= head + all.subrange(at as int, i as int));
    }
    assert(all.subrange(at as int, i as int) =~= all.skip(at as int));
    owned
}

/// Texts with the first occurrence of one replaced.
pub open spec fn with_first(texts: Texts, wanted: Seq<char>, other: Seq<char>) -> Texts {
    let at = index_of(texts, wanted, 0);
    if at < texts.len() {
        texts.update(at, other)
    } else {
        texts
    }
}

fn replace_first(texts: &Vec<String>, wanted: &str, other: &str) -> (result: Vec<String>)
    ensures
        views(result@) == with_first(views(texts@), wanted@, other@),
{
    let at = find_text(texts, wanted);
    let mut result = copy_texts(texts);
    assert(views(result@).len() == views(texts@).len());
    assert(result@.len() == views(result@).len());
    if at < result.len() {
        let ghost before = result@;
        result.set(at, other.to_owned());
        assert(views(result@) =~= views(before).update(at as int, other@));
    }
    result
}

/// The arguments that look for a rule.
pub fn check_arguments(rule: &Vec<String>) -> (arguments: Vec<String>)
    ensures
        views(arguments@) == with_first(views(rule@), "-A"@, "-C"@),
{
    replace_first(rule, "-A", "-C")
}

/// The arguments that delete a rule.
pub open spec fn deletion(rule: Texts) -> Texts {
    with_first(rule, "-A"@, "-D"@)
}

/// Deleting a rule and adding it again gives the rule back: the two differ in
/// the command only.
pub proof fn law_deletion_is_undone(rule: Texts)
    requires
        index_of(rule, "-A"@, 0) < rule.len(),
        forall|k: int| 0 <= k < index_of(rule, "-A"@, 0) ==> #[trigger] rule[k] != "-D"@,
    ensures
        with_first(deletion(rule), "-D"@, "-A"@) == rule,
{
    let at = index_of(rule, "-A"@, 0);
    lemma_index_of(rule, "-A"@, 0);
    let deleted = deletion(rule);
    lemma_index_of(deleted, "-D"@, 0);
    let back = index_of(deleted, "-D"@, 0);
    if back < at {
        assert(deleted[back] == rule[back]);
    }
    if back > at {
        assert(deleted[at] == "-D"@);
    }
    assert(with_first(deleted, "-D"@, "-A"@) =~= rule);
}

// ---------------------------------------------------------------------------
// Setting the network up
// ---------------------------------------------------------------------------
/// A step on the host.
#[derive(Debug, PartialEq, Eq)]
pub enum NetworkStep<T, L> {
    /// Goes back to the network namespace of the host.
    EnterHost,
    /// Makes a bridge unless it is there.
    EnsureBridge(T),
    /// Runs `ip`.
    Ip(L),
    /// Runs `ip`, which may find its work done.
    IpAllowExists(L),
    /// Takes the lease on forwarding.
    AcquireLease,
    /// Switches forwarding on.
    EnableForwarding,
    /// Adds a rule unless it is there.
    EnsureRule(L),
}

impl View for NetworkStep<String, Vec<String>> {
    type V = NetworkStep<Seq<char>, Texts>;

    open spec fn view(&self) -> NetworkStep<Seq<char>, Texts> {
        match self {
            NetworkStep::EnterHost => NetworkStep::EnterHost,
            NetworkStep::EnsureBridge(name) => NetworkStep::EnsureBridge(name@),
            NetworkStep::Ip(arguments) => NetworkStep::Ip(views(arguments@)),
            NetworkStep::IpAllowExists(arguments) => NetworkStep::IpAllowExists(
                views(arguments@),
            ),
            NetworkStep::AcquireLease => NetworkStep::AcquireLease,
            NetworkStep::EnableForwarding => NetworkStep::EnableForwarding,
            NetworkStep::EnsureRule(rule) => NetworkStep::EnsureRule(views(rule@)),
        }
    }
}

/// Steps on the host, as they are written down in contracts.
pub type NetworkSteps = Seq<NetworkStep<Seq<char>, Texts>>;

/// The arguments that make a bridge; none where it is there.
pub fn bridge_arguments(bridge: &str, exists: bool) -> (arguments: Option<Vec<String>>)
    ensures
        match arguments {
            Some(arguments) => !exists && views(arguments@) == seq![
                "link"@,
                "add"@,
                bridge@,
                "type"@,
                "bridge"@,
            ],
            None => exists,
        },
{
    if exists {
        None
    } else {
        Some(texts5("link", "add", bridge, "type", "bridge"))
    }
}

/// The arguments that look for a link.
pub fn link_exists(name: &str) -> (arguments: Vec<String>)
    ensures
        views(arguments@) == seq!["link"@, "show"@, name@],
{
    broadcast use {lemma_views_push, lemma_views_empty};

    let mut arguments: Vec<String> = Vec::new();
    arguments.push("link".to_owned());
    arguments.push("show".to_owned());
    arguments.push(name.to_owned());
    assert(views(arguments@) =~= seq!["link"@, "show"@, name@]);
    arguments
}

fn texts4(a: &str, b: &str, c: &str, d: &str) -> (texts: Vec<String>)
    ensures
        views(texts@) == seq![a@, b@, c@, d@],
{
    let mut texts: Vec<String> = Vec::new();
    texts.push(a.to_owned());
    texts.push(b.to_owned());
    texts.push(c.to_owned());
    texts.push(d.to_owned());
    assert(views(texts@) =~= seq![a@, b@, c@, d@]);
    texts
}

fn texts5(a: &str, b: &str, c: &str, d: &str, e: &str) -> (texts: Vec<String>)
    ensures
        views(texts@) == seq![a@, b@, c@, d@, e@],
{
    let mut texts: Vec<String> = texts4(a, b, c, d);
    let ghost before = texts@;
    texts.push(e.to_owned());
    assert(views(texts@) =~= views(before).push(e@));
    assert(views(texts@) =~= seq![a@, b@, c@, d@, e@]);
    texts
}

/// Adds texts to a list.
fn push_texts4(texts: &mut Vec<String>, a: &str, b: &str, c: &str, d: &str)
    ensures
        views(final(texts)@) == views(old(texts)@) + seq![a@, b@, c@, d@],
{
    broadcast use lemma_views_push;

    texts.push(a.to_owned());
    texts.push(b.to_owned());
    texts.push(c.to_owned());
    texts.push(d.to_owned());
    assert(views(texts@) =~= views(old(texts)@) + seq![a@, b@, c@, d@]);
}

/// The rule that hides the container's network behind the host.
pub open spec fn masquerade_rule(subnet: Seq<char>) -> Texts {
    seq!["-t"@, "nat"@, "-A"@, "POSTROUTING"@] + seq!["-s"@, subnet, "-j"@, "MASQUERADE"@]
}

/// The rule that lets traffic out of the bridge.
pub open spec fn outgoing_rule(bridge: Seq<char>) -> Texts {
    seq!["-A"@, "FORWARD"@, "-i"@, bridge] + seq!["-j"@, "ACCEPT"@]
}

/// The rule that lets answers in.
pub open spec fn incoming_rule(bridge: Seq<char>) -> Texts {
    seq!["-A"@, "FORWARD"@, "-o"@, bridge] + seq![
        "-m"@,
        "conntrack"@,
        "--ctstate"@,
        "ESTABLISHED,RELATED"@,
    ] + seq!["-j"@, "ACCEPT"@]
}

/// The rule that sends a port of the host to the container.
pub open spec fn forward_rule(address: Ipv4Address, port: PortForward) -> Texts {
    seq!["-t"@, "nat"@, "-A"@, "PREROUTING"@] + seq![
        "-p"@,
        port.protocol.text(),
        "--dport"@,
        decimal(port.host as nat),
    ] + seq![
        "-j"@,
        "DNAT"@,
        "--to-destination"@,
        address.dotted() + ":"@ + decimal(port.container as nat),
    ]
}

/// The rule that lets traffic to the port in.
pub open spec fn accept_rule(address: Ipv4Address, port: PortForward) -> Texts {
    seq!["-A"@, "FORWARD"@, "-p"@, port.protocol.text()] + seq![
        "-d"@,
        address.dotted(),
        "--dport"@,
        decimal(port.container as nat),
    ] + seq!["-j"@, "ACCEPT"@]
}

fn push_jump(texts: &mut Vec<String>, target: &str)
    ensures
        views(final(texts)@) == views(old(texts)@) + seq!["-j"@, target@],
{
    broadcast use lemma_views_push;

    texts.push("-j".to_owned());
    texts.push(target.to_owned());
    assert(views(texts@) =~= views(old(texts)@) + seq!["-j"@, target@]);
}

/// A rule of a container as a step.
pub open spec fn rule_step(edition: Edition, name: Seq<char>, pid: int, rule: Texts) -> NetworkStep<
    Seq<char>,
    Texts,
> {
    NetworkStep::EnsureRule(marked_rule(edition, name, pid, rule))
}

/// The rules for the first `count` forwarded ports.
pub open spec fn port_steps(
    edition: Edition,
    name: Seq<char>,
    pid: int,
    options: &NetworkConfig,
    count: int,
) -> NetworkSteps
    decreases count,
{
    if count <= 0 {
        Seq::empty()
    } else {
        let port = options.ports@[count - 1];
        port_steps(edition, name, pid, options, count - 1) + seq![
            rule_step(edition, name, pid, forward_rule(options.address, port)),
            rule_step(edition, name, pid, accept_rule(options.address, port)),
        ]
    }
}

/// The steps that carry the traffic of a container through the host.
pub open spec fn nat_steps(
    edition: Edition,
    name: Seq<char>,
    pid: int,
    options: &NetworkConfig,
) -> NetworkSteps {
    let subnet = with_prefix(network_of(options.address, options.prefix), options.prefix);
    seq![
        NetworkStep::AcquireLease,
        NetworkStep::EnableForwarding,
        rule_step(edition, name, pid, masquerade_rule(subnet)),
        rule_step(edition, name, pid, outgoing_rule(options.bridge@)),
        rule_step(edition, name, pid, incoming_rule(options.bridge@)),
    ] + port_steps(edition, name, pid, options, options.ports@.len() as int)
}

/// The link of the host's side.
pub open spec fn host_link_name(pid: int) -> Seq<char> {
    "dsv"@ + signed_decimal(pid)
}

/// The link of the container's side.
pub open spec fn peer_link_name(pid: int) -> Seq<char> {
    "dsp"@ + signed_decimal(pid)
}

/// The bridge that the container is put on.
pub open spec fn bridge_of(mode: NetworkMode, options: &NetworkConfig) -> Seq<char> {
    if mode == NetworkMode::Nat {
        options.bridge@
    } else {
        options.gateway_bridge@
    }
}

/// Whether the bridge is the runtime's to make: in gateway mode it is one of
/// the host, which has to exist and is left as it is.
pub open spec fn manages_bridge(mode: NetworkMode) -> bool {
    mode != NetworkMode::Gateway
}

/// The steps that get the bridge ready.
pub open spec fn bridge_steps(mode: NetworkMode, options: &NetworkConfig) -> NetworkSteps {
    let bridge = bridge_of(mode, options);
    if !manages_bridge(mode) {
        Seq::empty()
    } else {
        seq![NetworkStep::EnsureBridge(bridge)] + (if mode == NetworkMode::Nat {
            seq![
                NetworkStep::IpAllowExists(
                    seq![
                        "address"@,
                        "add"@,
                        with_prefix(options.gateway, options.prefix),
                        "dev"@,
                        bridge,
                    ],
                ),
            ]
        } else {
            Seq::empty()
        }) + seq![NetworkStep::Ip(seq!["link"@, "set"@, bridge, "up"@])]
    }
}

/// The steps that tie the container to a bridge.
pub open spec fn link_steps(mode: NetworkMode, pid: int, options: &NetworkConfig) -> NetworkSteps {
    let bridge = bridge_of(mode, options);
    let host = host_link_name(pid);
    let peer = peer_link_name(pid);
    bridge_steps(mode, options) + seq![
        NetworkStep::Ip(
            seq!["link"@, "add"@, host, "type"@] + seq!["veth"@, "peer"@, "name"@, peer],
        ),
        NetworkStep::Ip(seq!["link"@, "set"@, host, "master"@, bridge]),
        NetworkStep::Ip(seq!["link"@, "set"@, host, "up"@]),
        NetworkStep::Ip(seq!["link"@, "set"@, peer, "netns"@, signed_decimal(pid)]),
    ]
}

/// Whether the container is tied to a bridge.
pub open spec fn bridged(mode: NetworkMode) -> bool {
    mode == NetworkMode::Nat || mode == NetworkMode::Gateway || mode == NetworkMode::Dhcp
}

/// All steps on the host, in order.
pub open spec fn host_steps(edition: Edition, config: &Config, pid: int) -> NetworkSteps {
    let container = config.container;
    let mode = container.network;
    if mode == NetworkMode::Host {
        Seq::empty()
    } else if !bridged(mode) {
        seq![NetworkStep::EnterHost]
    } else {
        seq![NetworkStep::EnterHost] + link_steps(mode, pid, &container.network_options) + (if mode
            == NetworkMode::Nat {
            nat_steps(edition, container.name@, pid, &container.network_options)
        } else {
            Seq::empty()
        })
    }
}

type NetworkPlan = Vec<NetworkStep<String, Vec<String>>>;

fn push_rule(
    plan: &mut NetworkPlan,
    edition: Edition,
    name: &str,
    pid: i32,
    rule: &Vec<String>,
)
    ensures
        views(final(plan)@) == views(old(plan)@).push(
            rule_step(edition, name@, pid as int, views(rule@)),
        ),
{
    broadcast use lemma_views_push;

    plan.push(NetworkStep::EnsureRule(owned_rule(edition, name, pid, rule)));
}

fn push_port(
    plan: &mut NetworkPlan,
    edition: Edition,
    name: &str,
    pid: i32,
    address: Ipv4Address,
    port: PortForward,
)
    ensures
        views(final(plan)@) == views(old(plan)@) + seq![
            rule_step(edition, name@, pid as int, forward_rule(address, port)),
            rule_step(edition, name@, pid as int, accept_rule(address, port)),
        ],
{
    let protocol = protocol_name(port.protocol);
    let container_port = decimal_text(port.container as u64);
    let place = joined3(&address.text(), ":", &container_port);
    let mut forward = texts4("-t", "nat", "-A", "PREROUTING");
    push_texts4(&mut forward, "-p", protocol, "--dport", &decimal_text(port.host as u64));
    push_texts4(&mut forward, "-j", "DNAT", "--to-destination", &place);
    push_rule(plan, edition, name, pid, &forward);
    let mut accept = texts4("-A", "FORWARD", "-p", protocol);
    push_texts4(&mut accept, "-d", &address.text(), "--dport", &container_port);
    push_jump(&mut accept, "ACCEPT");
    push_rule(plan, edition, name, pid, &accept);
    assert(views(plan@) =~= views(old(plan)@) + seq![
        rule_step(edition, name@, pid as int, forward_rule(address, port)),
        rule_step(edition, name@, pid as int, accept_rule(address, port)),
    ]);
}

fn push_nat(
    plan: &mut NetworkPlan,
    edition: Edition,
    name: &str,
    pid: i32,
    options: &NetworkConfig,
)
    requires
        options.prefix <= 32,
    ensures
        views(final(plan)@) == views(old(plan)@) + nat_steps(
            edition,
            name@,
            pid as int,
            options,
        ),
{
    broadcast use lemma_views_push;

    let ghost before = views(plan@);
    let subnet = prefixed(masked_network(options.address, options.prefix), options.prefix);
    plan.push(NetworkStep::AcquireLease);
    plan.push(NetworkStep::EnableForwarding);
    let mut masquerade = texts4("-t", "nat", "-A", "POSTROUTING");
    push_texts4(&mut masquerade, "-s", &subnet, "-j", "MASQUERADE");
    push_rule(plan, edition, name, pid, &masquerade);
    let mut outgoing = texts4("-A", "FORWARD", "-i", &options.bridge);
    push_jump(&mut outgoing, "ACCEPT");
    push_rule(plan, edition, name, pid, &outgoing);
    let mut incoming = texts4("-A", "FORWARD", "-o", &options.bridge);
    push_texts4(&mut incoming, "-m", "conntrack", "--ctstate", "ESTABLISHED,RELATED");
    push_jump(&mut incoming, "ACCEPT");
    push_rule(plan, edition, name, pid, &incoming);
    let ghost head = seq![
        NetworkStep::AcquireLease,
        NetworkStep::EnableForwarding,
        rule_step(edition, name@, pid as int, masquerade_rule(subnet@)),
        rule_step(edition, name@, pid as int, outgoing_rule(options.bridge@)),
        rule_step(edition, name@, pid as int, incoming_rule(options.bridge@)),
    ];
    assert(views(plan@) =~= before + head);
    let mut i: usize = 0;
    assert(before + head + port_steps(edition, name@, pid as int, options, 0) =~= before + head);
    while i < options.ports.len()
        invariant
            i <= options.ports@.len(),
            views(plan@) == before + head + port_steps(
                edition,
                name@,
                pid as int,
                options,
                i as int,
            ),
        decreases options.ports.len() - i,
    {
        push_port(plan, edition, name, pid, options.address, options.ports[i]);
        i += 1;
        assert(views(plan@) =~= before + head + port_steps(
            edition,
            name@,
            pid as int,
            options,
            i as int,
        ));
    }
    assert(views(plan@) =~= before + nat_steps(edition, name@, pid as int, options));
}

fn push_bridge(plan: &mut NetworkPlan, mode: NetworkMode, options: &NetworkConfig)
    ensures
        views(final(plan)@) == views(old(plan)@) + bridge_steps(mode, options),
{
    broadcast use lemma_views_push;

    if mode != NetworkMode::Gateway {
        let bridge = if mode == NetworkMode::Nat {
            &options.bridge
        } else {
            &options.gateway_bridge
        };
        plan.push(NetworkStep::EnsureBridge(bridge.clone()));
        if mode == NetworkMode::Nat {
            let address = prefixed(options.gateway, options.prefix);
            plan.push(
                NetworkStep::IpAllowExists(texts5("address", "add", &address, "dev", bridge)),
            );
        }
        plan.push(NetworkStep::Ip(texts4("link", "set", bridge, "up")));
    }
    assert(views(plan@) =~= views(old(plan)@) + bridge_steps(mode, options));
}

fn push_links(plan: &mut NetworkPlan, mode: NetworkMode, pid: i32, options: &NetworkConfig)
    ensures
        views(final(plan)@) == views(old(plan)@) + link_steps(mode, pid as int, options),
{
    broadcast use lemma_views_push;

    let bridge = if mode == NetworkMode::Nat {
        &options.bridge
    } else {
        &options.gateway_bridge
    };
    let number = signed_text(pid);
    let host = joined("dsv", &number);
    let peer = joined("dsp", &number);
    push_bridge(plan, mode, options);
    let mut add_link = texts4("link", "add", &host, "type");
    push_texts4(&mut add_link, "veth", "peer", "name", &peer);
    plan.push(NetworkStep::Ip(add_link));
    plan.push(NetworkStep::Ip(texts5("link", "set", &host, "master", bridge)));
    plan.push(NetworkStep::Ip(texts4("link", "set", &host, "up")));
    plan.push(NetworkStep::Ip(texts5("link", "set", &peer, "netns", &number)));
    assert(views(plan@) =~= views(old(plan)@) + link_steps(mode, pid as int, options));
}

// ---------------------------------------------------------------------------
// What has been set up
// ---------------------------------------------------------------------------
/// What a container has on the host.
pub struct Network {
    host_link: Option<String>,
    peer_link: Option<String>,
    rules: Vec<Vec<String>>,
    nat_lease: bool,
}

/// What a container has on the host, as it is written down in contracts.
#[verifier::ext_equal]
pub struct NetworkView {
    pub host_link: Option<Seq<char>>,
    pub peer_link: Option<Seq<char>>,
    /// The rules that were added, in the order in which they were.
    pub rules: Seq<Texts>,
    pub nat_lease: bool,
}

/// The rules of a list as texts.
pub open spec fn rule_views(rules: Seq<Vec<String>>) -> Seq<Texts> {
    rules.map_values(|rule: Vec<String>| views(rule@))
}

impl View for Network {
    type V = NetworkView;

    closed spec fn view(&self) -> NetworkView {
        NetworkView {
            host_link: optional_view(self.host_link),
            peer_link: optional_view(self.peer_link),
            rules: rule_views(self.rules@),
            nat_lease: self.nat_lease,
        }
    }
}

/// Nothing on the host.
pub open spec fn no_network() -> NetworkView {
    NetworkView { host_link: None, peer_link: None, rules: Seq::empty(), nat_lease: false }
}

/// What a container has on the host before the first step. The links are
/// counted as its own from then on.
pub open spec fn starting_network(config: &Config, pid: int) -> NetworkView {
    if bridged(config.container.network) {
        NetworkView {
            host_link: Some(host_link_name(pid)),
            peer_link: Some(peer_link_name(pid)),
            ..no_network()
        }
    } else {
        no_network()
    }
}

/// What came of a step.
#[derive(Clone, Copy, Debug, PartialEq, Eq, Structural)]
pub enum StepOutcome {
    /// It was done.
    Done,
    /// A rule was there already.
    AlreadyThere,
    Failed,
}

/// What a container has on the host after a step.
pub open spec fn network_after(
    network: NetworkView,
    step: NetworkStep<Seq<char>, Texts>,
    outcome: StepOutcome,
) -> NetworkView {
    match (step, outcome) {
        (NetworkStep::EnsureRule(rule), StepOutcome::Done) => NetworkView {
            rules: network.rules.push(rule),
            ..network
        },
        (NetworkStep::AcquireLease, StepOutcome::Done) => NetworkView {
            nat_lease: true,
            ..network
        },
        _ => network,
    }
}

/// A step in taking the network down.
#[derive(Debug, PartialEq, Eq)]
pub enum CleanupStep<T, L> {
    /// Runs `iptables`; a failure is of no account.
    DeleteRule(L),
    /// Deletes a link; a failure is of no account.
    DeleteLink(T),
    /// Gives the lease on forwarding up; a failure is of no account.
    ReleaseLease,
}

impl View for CleanupStep<String, Vec<String>> {
    type V = CleanupStep<Seq<char>, Texts>;

    open spec fn view(&self) -> CleanupStep<Seq<char>, Texts> {
        match self {
            CleanupStep::DeleteRule(arguments) => CleanupStep::DeleteRule(views(arguments@)),
            CleanupStep::DeleteLink(name) => CleanupStep::DeleteLink(name@),
            CleanupStep::ReleaseLease => CleanupStep::ReleaseLease,
        }
    }
}

/// The deletions of rules, the last added first.
pub open spec fn rule_deletions(rules: Seq<Texts>) -> Seq<CleanupStep<Seq<char>, Texts>> {
    Seq::new(
        rules.len(),
        |i: int| CleanupStep::DeleteRule(deletion(rules[rules.len() - 1 - i])),
    )
}

/// The steps that take a network down.
pub open spec fn cleanup_steps(network: NetworkView) -> Seq<CleanupStep<Seq<char>, Texts>> {
    rule_deletions(network.rules) + (match network.host_link {
        Some(link) => seq![CleanupStep::DeleteLink(link)],
        None => Seq::empty(),
    }) + (if network.nat_lease {
        seq![CleanupStep::ReleaseLease]
    } else {
        Seq::empty()
    })
}

impl Network {
    /// Nothing on the host.
    pub fn empty() -> (network: Network)
        ensures
            network@ == no_network(),
    {
        let network = Network {
            host_link: None,
            peer_link: None,
            rules: Vec::new(),
            nat_lease: false,
        };
        assert(rule_views(network.rules@) =~= Seq::<Texts>::empty());
        network
    }

    /// The link of the container's side, which is handed to it.
    pub fn peer_name(&self) -> (name: &str)
        ensures
            name@ == match self@.peer_link {
                Some(name) => name,
                None => "none"@,
            },
    {
        match &self.peer_link {
            Some(name) => name.as_str(),
            None => "none",
        }
    }

    /// Takes down what came of a step.
    fn record(&mut self, step: &NetworkStep<String, Vec<String>>, outcome: StepOutcome)
        ensures
            final(self)@ == network_after(old(self)@, step@, outcome),
    {
        if outcome == StepOutcome::Done {
            match step {
                NetworkStep::EnsureRule(rule) => {
                    let ghost before = self.rules@;
                    let copy = copy_texts(rule);
                    self.rules.push(copy);
                    assert(rule_views(self.rules@) =~= rule_views(before).push(views(rule@)));
                },
                NetworkStep::AcquireLease => {
                    self.nat_lease = true;
                },
                _ => {},
            }
        }
    }

    /// The steps that take the network down. After it nothing is left to take
    /// down.
    pub fn cleanup(&mut self) -> (steps: Vec<CleanupStep<String, Vec<String>>>)
        ensures
            views(steps@) == cleanup_steps(old(self)@),
            final(self)@ == no_network(),
    {
        broadcast use lemma_views_push;

        let ghost model = self@;
        let mut steps: Vec<CleanupStep<String, Vec<String>>> = Vec::new();
        let count: usize = self.rules.len();
        let mut i: usize = 0;
        let ghost deletions = rule_deletions(model.rules);
        assert(views(steps@) =~= deletions.take(0));
        while i < count
            invariant
                i <= count,
                count == self.rules@.len(),
                *self == *old(self),
                model == old(self)@,
                deletions == rule_deletions(model.rules),
                model.rules.len() == count,
                views(steps@) == deletions.take(i as int),
            decreases count - i,
        {
            broadcast use lemma_views_push;

            let rule = &self.rules[count - 1 - i];
            assert(model.rules[count - 1 - i] == views(rule@));
            steps.push(CleanupStep::DeleteRule(replace_first(rule, "-A", "-D")));
            i += 1;
            assert(deletions.take(i as int) =~= deletions.take(i - 1).push(deletions[i - 1]));
        }
        assert(deletions.take(i as int) =~= deletions);
        if let Some(link) = &self.host_link {
            steps.push(CleanupStep::DeleteLink(link.clone()));
        }
        if self.nat_lease {
            steps.push(CleanupStep::ReleaseLease);
        }
        assert(views(steps@) =~= cleanup_steps(model));
        *self = Network::empty();
        steps
    }
}

/// The work on the host for one container, step by step.
pub struct HostSetup {
    pub network: Network,
    pub steps: Vec<NetworkStep<String, Vec<String>>>,
    /// How many steps are done.
    pub done: usize,
}

impl HostSetup {
    /// Whether the position is one of the steps or the end.
    pub open spec fn valid(&self) -> bool {
        self.done <= self.steps@.len()
    }

    /// The step that is to be taken; none where all are done.
    pub fn next(&self) -> (step: Option<&NetworkStep<String, Vec<String>>>)
        requires
            self.valid(),
        ensures
            match step {
                Some(step) => self.done < self.steps@.len() && step@ == views(
                    self.steps@,
                )[self.done as int],
                None => self.done == self.steps@.len(),
            },
    {
        if self.done < self.steps.len() {
            Some(&self.steps[self.done])
        } else {
            None
        }
    }

    /// Goes on after a step; the result tells whether the work may go on. After
    /// a failure what has been set up is to be taken down.
    pub fn advance(&mut self, outcome: StepOutcome) -> (go_on: bool)
        requires
            old(self).valid(),
            old(self).done < old(self).steps@.len(),
        ensures
            final(self).valid(),
            final(self).steps@ == old(self).steps@,
            final(self).network@ == network_after(
                old(self).network@,
                views(old(self).steps@)[old(self).done as int],
                outcome,
            ),
            go_on == (outcome != StepOutcome::Failed),
            final(self).done == if go_on {
                old(self).done + 1
            } else {
                old(self).done as int
            },
    {
        let count: usize = self.steps.len();
        assert(self.done < count);
        let step = &self.steps[self.done];
        assert(views(self.steps@)[self.done as int] == step@);
        self.network.record(step, outcome);
        if outcome == StepOutcome::Failed {
            false
        } else {
            self.done = self.done + 1;
            true
        }
    }
}

impl Network {
    /// The work on the host for the container whose init process has this
    /// number.
    pub fn setup_host(edition: Edition, config: &Config, init_pid: i32) -> (setup: HostSetup)
        requires
            config.container.network == NetworkMode::Nat
                ==> config.container.network_options.prefix <= 32,
        ensures
            views(setup.steps@) == host_steps(edition, config, init_pid as int),
            setup.network@ == starting_network(config, init_pid as int),
            setup.done == 0,
            setup.valid(),
    {
        broadcast use {lemma_views_push, lemma_views_empty};

        let mode = config.container.network;
        let options = &config.container.network_options;
        let mut steps: NetworkPlan = Vec::new();
        if mode == NetworkMode::Host {
            assert(views(steps@) =~= host_steps(edition, config, init_pid as int));
            return HostSetup { network: Network::empty(), steps, done: 0 };
        }
        steps.push(NetworkStep::EnterHost);
        if mode == NetworkMode::Isolated {
            assert(views(steps@) =~= host_steps(edition, config, init_pid as int));
            return HostSetup { network: Network::empty(), steps, done: 0 };
        }
        push_links(&mut steps, mode, init_pid, options);
        if mode == NetworkMode::Nat {
            push_nat(&mut steps, edition, &config.container.name, init_pid, options);
        }
        assert(views(steps@) =~= host_steps(edition, config, init_pid as int));
        let number = signed_text(init_pid);
        let mut network = Network::empty();
        network.host_link = Some(joined("dsv", &number));
        network.peer_link = Some(joined("dsp", &number));
        HostSetup { network, steps, done: 0 }
    }
}

// ---------------------------------------------------------------------------
// What holds of every setup
// ---------------------------------------------------------------------------
/// In gateway mode the bridge is neither made nor switched on: the container
/// is tied to it, which fails where it does not exist. The bridge is not named
/// like the link of the container.
pub proof fn law_gateway_bridge_is_left_alone(edition: Edition, config: &Config, pid: int)
    requires
        config.container.network == NetworkMode::Gateway,
        config.container.network_options.gateway_bridge@ != host_link_name(pid),
    ensures
        ({
            let steps = host_steps(edition, config, pid);
            let bridge = config.container.network_options.gateway_bridge@;
            &&& forall|i: int|
                0 <= i < steps.len() ==> !((#[trigger] steps[i]) is EnsureBridge) && steps[i]
                    != NetworkStep::<Seq<char>, Texts>::Ip(
                    seq!["link"@, "set"@, bridge, "up"@],
                )
            &&& steps.contains(
                NetworkStep::Ip(
                    seq!["link"@, "set"@, host_link_name(pid), "master"@, bridge],
                ),
            )
        }),
{
    let steps = host_steps(edition, config, pid);
    let bridge = config.container.network_options.gateway_bridge@;
    let host = host_link_name(pid);
    let wrong = seq!["link"@, "set"@, bridge, "up"@];
    let add_link = seq!["link"@, "add"@, host, "type"@] + seq![
        "veth"@,
        "peer"@,
        "name"@,
        peer_link_name(pid),
    ];
    let master = seq!["link"@, "set"@, host, "master"@, bridge];
    let up = seq!["link"@, "set"@, host, "up"@];
    let netns = seq!["link"@, "set"@, peer_link_name(pid), "netns"@, signed_decimal(pid)];
    assert(steps =~= seq![
        NetworkStep::EnterHost,
        NetworkStep::Ip(add_link),
        NetworkStep::Ip(master),
        NetworkStep::Ip(up),
        NetworkStep::Ip(netns),
    ]);
    assert(add_link.len() == 8 && master.len() == 5 && netns.len() == 5 && wrong.len() == 4);
    assert(up[2] == host && wrong[2] == bridge);
    assert(steps[2] == NetworkStep::<Seq<char>, Texts>::Ip(master));
}

/// What a container has on the host after the first `count` steps with these
/// outcomes.
pub open spec fn network_after_steps(
    start: NetworkView,
    steps: NetworkSteps,
    outcomes: Seq<StepOutcome>,
    count: int,
) -> NetworkView
    decreases count,
{
    if count <= 0 {
        start
    } else {
        network_after(
            network_after_steps(start, steps, outcomes, count - 1),
            steps[count - 1],
            outcomes[count - 1],
        )
    }
}

/// The rules that the first `count` steps added to the host.
pub open spec fn rules_added(
    steps: NetworkSteps,
    outcomes: Seq<StepOutcome>,
    count: int,
) -> Seq<Texts>
    decreases count,
{
    if count <= 0 {
        Seq::empty()
    } else {
        let before = rules_added(steps, outcomes, count - 1);
        match (steps[count - 1], outcomes[count - 1]) {
            (NetworkStep::EnsureRule(rule), StepOutcome::Done) => before.push(rule),
            _ => before,
        }
    }
}

/// Whether one of the first `count` steps took the lease.
pub open spec fn lease_taken(
    steps: NetworkSteps,
    outcomes: Seq<StepOutcome>,
    count: int,
) -> bool {
    exists|i: int|
        0 <= i < count && (#[trigger] steps[i]) is AcquireLease && outcomes[i] == StepOutcome::Done
}

/// Wherever a setup ends, by success or by the failure of a step, taking it
/// down deletes exactly the rules that were added, the last first, deletes the
/// link, and gives the lease up if and only if it was taken.
pub proof fn law_cleanup_undoes_setup(
    config: &Config,
    pid: int,
    steps: NetworkSteps,
    outcomes: Seq<StepOutcome>,
    count: int,
)
    requires
        0 <= count <= steps.len(),
        count <= outcomes.len(),
        bridged(config.container.network),
    ensures
        ({
            let network = network_after_steps(
                starting_network(config, pid),
                steps,
                outcomes,
                count,
            );
            cleanup_steps(network) == rule_deletions(rules_added(steps, outcomes, count)) + seq![
                CleanupStep::DeleteLink(host_link_name(pid)),
            ] + (if lease_taken(steps, outcomes, count) {
                seq![CleanupStep::ReleaseLease]
            } else {
                Seq::empty()
            })
        }),
{
    lemma_network_after_steps(config, pid, steps, outcomes, count);
}

proof fn lemma_network_after_steps(
    config: &Config,
    pid: int,
    steps: NetworkSteps,
    outcomes: Seq<StepOutcome>,
    count: int,
)
    requires
        0 <= count <= steps.len(),
        count <= outcomes.len(),
        bridged(config.container.network),
    ensures
        ({
            let network = network_after_steps(
                starting_network(config, pid),
                steps,
                outcomes,
                count,
            );
            &&& network.host_link == Some(host_link_name(pid))
            &&& network.rules == rules_added(steps, outcomes, count)
            &&& network.nat_lease == lease_taken(steps, outcomes, count)
        }),
    decreases count,
{
    if count > 0 {
        lemma_network_after_steps(config, pid, steps, outcomes, count - 1);
        let last = count - 1;
        if lease_taken(steps, outcomes, last) {
            let i = choose|i: int|
                0 <= i < last && (#[trigger] steps[i]) is AcquireLease && outcomes[i]
                    == StepOutcome::Done;
            assert(steps[i] is AcquireLease);
            assert(lease_taken(steps, outcomes, count));
        }
        if steps[last] is AcquireLease && outcomes[last] == StepOutcome::Done {
            assert(lease_taken(steps, outcomes, count));
        } else if lease_taken(steps, outcomes, count) {
            let i = choose|i: int|
                0 <= i < count && (#[trigger] steps[i]) is AcquireLease && outcomes[i]
                    == StepOutcome::Done;
            assert(i < last);
            assert(lease_taken(steps, outcomes, last));
        }
    }
}

/// Taking down what is taken down already does nothing.
pub proof fn law_cleanup_is_idempotent()
    ensures
        cleanup_steps(no_network()) == Seq::<CleanupStep<Seq<char>, Texts>>::empty(),
{
    assert(cleanup_steps(no_network()) =~= Seq::<CleanupStep<Seq<char>, Texts>>::empty());
}

/// Every rule of a container carries its mark.
pub proof fn law_rules_carry_the_mark(
    edition: Edition,
    name: Seq<char>,
    pid: int,
    rule: Texts,
)
    ensures
        marked_rule(edition, name, pid, rule).contains(rule_mark(edition, name, pid)),
        marked_rule(edition, name, pid, rule).len() == rule.len() + 4,
{
    let at = index_of(rule, "-j"@, 0);
    lemma_index_of(rule, "-j"@, 0);
    let marked = marked_rule(edition, name, pid, rule);
    assert(marked[at + 3] == rule_mark(edition, name, pid));
}

proof fn lemma_index_is(texts: Texts, wanted: Seq<char>, i: int, at: int)
    requires
        0 <= i <= at < texts.len(),
        texts[at] == wanted,
        forall|k: int| i <= k < at ==> #[trigger] texts[k] != wanted,
    ensures
        index_of(texts, wanted, i) == at,
    decreases at - i,
{
    if i < at {
        assert(texts[i] != wanted);
        lemma_index_is(texts, wanted, i + 1, at);
    }
}

/// No word of a rule that stands in front of its target is taken for the
/// target.
proof fn lemma_rule_words()
    ensures
        "-t"@ != "-j"@,
        "nat"@ != "-j"@,
        "-A"@ != "-j"@,
        "PREROUTING"@ != "-j"@,
        "POSTROUTING"@ != "-j"@,
        "FORWARD"@ != "-j"@,
        "-p"@ != "-j"@,
        "-d"@ != "-j"@,
        "-s"@ != "-j"@,
        "-i"@ != "-j"@,
        "-o"@ != "-j"@,
        "-m"@ != "-j"@,
        "conntrack"@ != "-j"@,
        "--ctstate"@ != "-j"@,
        "ESTABLISHED,RELATED"@ != "-j"@,
        "--dport"@ != "-j"@,
        "tcp"@ != "-j"@,
        "udp"@ != "-j"@,
        "tcp"@ != "udp"@,
{
    reveal_strlit("-j");
    reveal_strlit("-t");
    reveal_strlit("nat");
    reveal_strlit("-A");
    reveal_strlit("PREROUTING");
    reveal_strlit("POSTROUTING");
    reveal_strlit("FORWARD");
    reveal_strlit("-p");
    reveal_strlit("-d");
    reveal_strlit("-s");
    reveal_strlit("-i");
    reveal_strlit("-o");
    reveal_strlit("-m");
    reveal_strlit("conntrack");
    reveal_strlit("--ctstate");
    reveal_strlit("ESTABLISHED,RELATED");
    reveal_strlit("--dport");
    reveal_strlit("tcp");
    reveal_strlit("udp");
    assert("-j"@.len() == 2 && "-j"@[1] == 'j');
    assert("-t"@[1] == 't' && "-A"@[1] == 'A' && "-p"@[1] == 'p' && "-d"@[1] == 'd');
    assert("-s"@[1] == 's' && "-i"@[1] == 'i' && "-o"@[1] == 'o' && "-m"@[1] == 'm');
    assert("tcp"@[0] == 't' && "udp"@[0] == 'u');
}

/// A number is never taken for the target of a rule, nor is a text that begins
/// with one.
proof fn lemma_number_is_no_target(n: nat, tail: Seq<char>)
    ensures
        decimal(n) != "-j"@,
        decimal(n) + tail != "-j"@,
{
    lemma_decimal_digits(n);
    reveal_strlit("-j");
    assert("-j"@[0] == '-');
    assert(digit_value(decimal(n)[0]) < 10);
    assert((decimal(n) + tail)[0] == decimal(n)[0]);
}

/// Two numbers that are written alike are the same.
proof fn lemma_decimals_differ(a: nat, b: nat)
    requires
        decimal(a) == decimal(b),
    ensures
        a == b,
{
    lemma_decimal_digits(a);
    lemma_decimal_digits(b);
}

/// The mark of a container's rules: who made them, for which container, and
/// for which run of it.
pub open spec fn owner_of_rules(edition: Edition, name: Seq<char>, pid: int) -> Seq<char> {
    (if edition == Edition::Gnosis {
        "gnosis:"@
    } else {
        "kurumi-containerd:"@
    }) + name + ":"@ + signed_decimal(pid)
}

proof fn lemma_owner_of_rules(edition: Edition, name: Seq<char>, pid: int)
    ensures
        rule_mark(edition, name, pid) == owner_of_rules(edition, name, pid),
{
    reveal_strlit("gnosis");
    reveal_strlit("gnosis:");
    reveal_strlit("kurumi-containerd");
    reveal_strlit("kurumi-containerd:");
    reveal_strlit(":");
    assert("gnosis"@ + ":"@ =~= "gnosis:"@);
    assert("kurumi-containerd"@ + ":"@ =~= "kurumi-containerd:"@);
}

/// The name of a transport in a rule.
pub open spec fn transport(port: PortForward) -> Seq<char> {
    if port.protocol == Protocol::Udp {
        "udp"@
    } else {
        "tcp"@
    }
}

/// What sends traffic for the host's port on to the container's.
pub open spec fn sends_on(
    address: Ipv4Address,
    port: PortForward,
    mark: Seq<char>,
) -> Texts {
    seq![
        "-t"@,
        "nat"@,
        "-A"@,
        "PREROUTING"@,
        "-p"@,
        transport(port),
        "--dport"@,
        decimal(port.host as nat),
        "-m"@,
        "comment"@,
        "--comment"@,
        mark,
        "-j"@,
        "DNAT"@,
        "--to-destination"@,
        address.dotted() + ":"@ + decimal(port.container as nat),
    ]
}

/// What lets the traffic in that was sent on.
pub open spec fn lets_in(address: Ipv4Address, port: PortForward, mark: Seq<char>) -> Texts {
    seq![
        "-A"@,
        "FORWARD"@,
        "-p"@,
        transport(port),
        "-d"@,
        address.dotted(),
        "--dport"@,
        decimal(port.container as nat),
        "-m"@,
        "comment"@,
        "--comment"@,
        mark,
        "-j"@,
        "ACCEPT"@,
    ]
}

#[verifier::rlimit(60)]
proof fn lemma_port_rules(
    edition: Edition,
    name: Seq<char>,
    pid: int,
    address: Ipv4Address,
    port: PortForward,
)
    ensures
        marked_rule(edition, name, pid, forward_rule(address, port)) == sends_on(
            address,
            port,
            owner_of_rules(edition, name, pid),
        ),
        marked_rule(edition, name, pid, accept_rule(address, port)) == lets_in(
            address,
            port,
            owner_of_rules(edition, name, pid),
        ),
{
    lemma_rule_words();
    lemma_owner_of_rules(edition, name, pid);
    lemma_number_is_no_target(port.host as nat, Seq::empty());
    lemma_number_is_no_target(port.container as nat, Seq::empty());
    let forward = forward_rule(address, port);
    assert(forward[0] == "-t"@ && forward[1] == "nat"@ && forward[2] == "-A"@ && forward[3]
        == "PREROUTING"@ && forward[4] == "-p"@ && forward[5] == transport(port) && forward[6]
        == "--dport"@ && forward[7] == decimal(port.host as nat) && forward[8] == "-j"@);
    lemma_index_is(forward, "-j"@, 0, 8);
    assert(marked_rule(edition, name, pid, forward) =~= sends_on(
        address,
        port,
        owner_of_rules(edition, name, pid),
    ));
    let accept = accept_rule(address, port);
    assert(address.dotted() != "-j"@) by {
        let first = (address.bits / 0x100_0000) as nat;
        let tail = address.dotted().skip(decimal(first).len() as int);
        lemma_number_is_no_target(first, tail);
        assert(address.dotted() =~= decimal(first) + tail);
    }
    assert(accept[0] == "-A"@ && accept[1] == "FORWARD"@ && accept[2] == "-p"@ && accept[3]
        == transport(port) && accept[4] == "-d"@ && accept[5] == address.dotted() && accept[6]
        == "--dport"@ && accept[7] == decimal(port.container as nat) && accept[8] == "-j"@);
    lemma_index_is(accept, "-j"@, 0, 8);
    assert(marked_rule(edition, name, pid, accept) =~= lets_in(
        address,
        port,
        owner_of_rules(edition, name, pid),
    ));
}

#[verifier::rlimit(60)]
proof fn lemma_port_steps(
    edition: Edition,
    name: Seq<char>,
    pid: int,
    options: &NetworkConfig,
    count: int,
)
    requires
        0 <= count <= options.ports@.len(),
    ensures
        ({
            let steps = port_steps(edition, name, pid, options, count);
            &&& steps.len() == 2 * count
            &&& forall|i: int|
                #![trigger options.ports@[i]]
                0 <= i < count ==> {
                    &&& steps[2 * i] == rule_step(
                        edition,
                        name,
                        pid,
                        forward_rule(options.address, options.ports@[i]),
                    )
                    &&& steps[2 * i + 1] == rule_step(
                        edition,
                        name,
                        pid,
                        accept_rule(options.address, options.ports@[i]),
                    )
                }
        }),
    decreases count,
{
    if count > 0 {
        lemma_port_steps(edition, name, pid, options, count - 1);
    }
}

#[verifier::rlimit(60)]
proof fn lemma_nat_layout(edition: Edition, config: &Config, pid: int) -> (at: int)
    requires
        config.container.network == NetworkMode::Nat,
    ensures
        ({
            let options = config.container.network_options;
            let name = config.container.name@;
            let steps = host_steps(edition, config, pid);
            let links = link_steps(NetworkMode::Nat, pid, &options);
            let carried = nat_steps(edition, name, pid, &options);
            &&& at == 1 + links.len()
            &&& links.len() == 7
            &&& steps.len() == at + 5 + 2 * options.ports@.len()
            &&& carried.len() == 5 + 2 * options.ports@.len()
            &&& steps[0] == NetworkStep::<Seq<char>, Texts>::EnterHost
            &&& forall|i: int| 0 <= i < links.len() ==> steps[1 + i] == #[trigger] links[i]
            &&& forall|i: int| 0 <= i < carried.len() ==> steps[at + i] == #[trigger] carried[i]
        }),
{
    let options = config.container.network_options;
    let name = config.container.name@;
    lemma_port_steps(edition, name, pid, &options, options.ports@.len() as int);
    let links = link_steps(NetworkMode::Nat, pid, &options);
    let carried = nat_steps(edition, name, pid, &options);
    assert(host_steps(edition, config, pid) =~= seq![NetworkStep::EnterHost] + links + carried);
    1 + links.len() as int
}

/// Whether two steps are taken in this order.
pub open spec fn taken_in_order(
    steps: NetworkSteps,
    first: NetworkStep<Seq<char>, Texts>,
    second: NetworkStep<Seq<char>, Texts>,
) -> bool {
    exists|i: int, j: int|
        #![trigger steps[i], steps[j]]
        0 <= i < j < steps.len() && steps[i] == first && steps[j] == second
}

/// Where the rules of a port stand among the steps on the host.
#[verifier::rlimit(60)]
proof fn lemma_port_place(edition: Edition, config: &Config, pid: int, i: int) -> (at: int)
    requires
        config.container.network == NetworkMode::Nat,
        0 <= i < config.container.network_options.ports@.len(),
    ensures
        ({
            let options = config.container.network_options;
            let name = config.container.name@;
            let steps = host_steps(edition, config, pid);
            &&& 0 <= at < steps.len() - 1
            &&& steps[at] == rule_step(
                edition,
                name,
                pid,
                forward_rule(options.address, options.ports@[i]),
            )
            &&& steps[at + 1] == rule_step(
                edition,
                name,
                pid,
                accept_rule(options.address, options.ports@[i]),
            )
        }),
{
    let options = config.container.network_options;
    let name = config.container.name@;
    let steps = host_steps(edition, config, pid);
    let at = lemma_nat_layout(edition, config, pid);
    let carried = nat_steps(edition, name, pid, &options);
    let ports = port_steps(edition, name, pid, &options, options.ports@.len() as int);
    lemma_port_steps(edition, name, pid, &options, options.ports@.len() as int);
    let port = options.ports@[i];
    assert(carried[5 + 2 * i] == ports[2 * i]);
    assert(carried[5 + 2 * i + 1] == ports[2 * i + 1]);
    assert(steps[at + (5 + 2 * i)] == carried[5 + 2 * i]);
    assert(steps[at + (5 + 2 * i + 1)] == carried[5 + 2 * i + 1]);
    at + 5 + 2 * i
}

/// Behind a translated network every configured port of the host leads to its
/// port of the container, and the traffic that is sent on is let in.
#[verifier::rlimit(60)]
pub proof fn law_every_port_is_forwarded(edition: Edition, config: &Config, pid: int, i: int)
    requires
        config.container.network == NetworkMode::Nat,
        0 <= i < config.container.network_options.ports@.len(),
    ensures
        ({
            let options = config.container.network_options;
            let mark = owner_of_rules(edition, config.container.name@, pid);
            taken_in_order(
                host_steps(edition, config, pid),
                NetworkStep::EnsureRule(sends_on(options.address, options.ports@[i], mark)),
                NetworkStep::EnsureRule(lets_in(options.address, options.ports@[i], mark)),
            )
        }),
{
    let options = config.container.network_options;
    let steps = host_steps(edition, config, pid);
    let at = lemma_port_place(edition, config, pid, i);
    lemma_port_rules(
        edition,
        config.container.name@,
        pid,
        options.address,
        options.ports@[i],
    );
    lemma_taken_in_order(steps, at, at + 1);
}

proof fn lemma_taken_in_order(steps: NetworkSteps, i: int, j: int)
    requires
        0 <= i < j < steps.len(),
    ensures
        taken_in_order(steps, steps[i], steps[j]),
{
}

/// The traffic of a translated network gets out and its answers get in:
/// forwarding is switched on under the lease, whatever comes from the
/// container's network is hidden behind the host, the bridge may send, and what
/// belongs to a connection may come back. Beyond this and the ports nothing is
/// changed.
#[verifier::rlimit(60)]
pub proof fn law_translated_network_is_connected(edition: Edition, config: &Config, pid: int)
    requires
        config.container.network == NetworkMode::Nat,
        config.container.network_options.bridge@ != "-j"@,
    ensures
        ({
            let options = config.container.network_options;
            let bridge = options.bridge@;
            let mark = owner_of_rules(edition, config.container.name@, pid);
            let steps = host_steps(edition, config, pid);
            let network = network_of(options.address, options.prefix);
            let hides = seq![
                "-t"@,
                "nat"@,
                "-A"@,
                "POSTROUTING"@,
                "-s"@,
                network.dotted() + "/"@ + decimal(options.prefix as nat),
                "-m"@,
                "comment"@,
                "--comment"@,
                mark,
                "-j"@,
                "MASQUERADE"@,
            ];
            let sends = seq![
                "-A"@,
                "FORWARD"@,
                "-i"@,
                bridge,
                "-m"@,
                "comment"@,
                "--comment"@,
                mark,
                "-j"@,
                "ACCEPT"@,
            ];
            let answers = seq![
                "-A"@,
                "FORWARD"@,
                "-o"@,
                bridge,
                "-m"@,
                "conntrack"@,
                "--ctstate"@,
                "ESTABLISHED,RELATED"@,
                "-m"@,
                "comment"@,
                "--comment"@,
                mark,
                "-j"@,
                "ACCEPT"@,
            ];
            &&& taken_in_order(steps, NetworkStep::AcquireLease, NetworkStep::EnableForwarding)
            &&& taken_in_order(
                steps,
                NetworkStep::EnableForwarding,
                NetworkStep::EnsureRule(hides),
            )
            &&& taken_in_order(
                steps,
                NetworkStep::EnsureRule(sends),
                NetworkStep::EnsureRule(answers),
            )
            &&& steps.len() == 13 + 2 * options.ports@.len()
        }),
{
    let options = config.container.network_options;
    let name = config.container.name@;
    let steps = host_steps(edition, config, pid);
    let at = lemma_nat_layout(edition, config, pid);
    let carried = nat_steps(edition, name, pid, &options);
    lemma_rule_words();
    lemma_owner_of_rules(edition, name, pid);
    let subnet = with_prefix(network_of(options.address, options.prefix), options.prefix);
    let hides = masquerade_rule(subnet);
    assert(subnet != "-j"@) by {
        let first = (network_of(options.address, options.prefix).bits / 0x100_0000) as nat;
        let tail = subnet.skip(decimal(first).len() as int);
        lemma_number_is_no_target(first, tail);
        assert(subnet =~= decimal(first) + tail);
    }
    assert(hides[0] == "-t"@ && hides[1] == "nat"@ && hides[2] == "-A"@ && hides[3]
        == "POSTROUTING"@ && hides[4] == "-s"@ && hides[5] == subnet && hides[6] == "-j"@);
    lemma_index_is(hides, "-j"@, 0, 6);
    let sends = outgoing_rule(options.bridge@);
    assert(sends[0] == "-A"@ && sends[1] == "FORWARD"@ && sends[2] == "-i"@ && sends[3]
        == options.bridge@ && sends[4] == "-j"@);
    lemma_index_is(sends, "-j"@, 0, 4);
    let answers = incoming_rule(options.bridge@);
    assert(answers[0] == "-A"@ && answers[1] == "FORWARD"@ && answers[2] == "-o"@ && answers[3]
        == options.bridge@ && answers[4] == "-m"@ && answers[5] == "conntrack"@ && answers[6]
        == "--ctstate"@ && answers[7] == "ESTABLISHED,RELATED"@ && answers[8] == "-j"@);
    lemma_index_is(answers, "-j"@, 0, 8);
    let mark = owner_of_rules(edition, name, pid);
    assert(marked_rule(edition, name, pid, hides) =~= seq![
        "-t"@,
        "nat"@,
        "-A"@,
        "POSTROUTING"@,
        "-s"@,
        subnet,
        "-m"@,
        "comment"@,
        "--comment"@,
        mark,
        "-j"@,
        "MASQUERADE"@,
    ]);
    assert(marked_rule(edition, name, pid, sends) =~= seq![
        "-A"@,
        "FORWARD"@,
        "-i"@,
        options.bridge@,
        "-m"@,
        "comment"@,
        "--comment"@,
        mark,
        "-j"@,
        "ACCEPT"@,
    ]);
    assert(marked_rule(edition, name, pid, answers) =~= seq![
        "-A"@,
        "FORWARD"@,
        "-o"@,
        options.bridge@,
        "-m"@,
        "conntrack"@,
        "--ctstate"@,
        "ESTABLISHED,RELATED"@,
        "-m"@,
        "comment"@,
        "--comment"@,
        mark,
        "-j"@,
        "ACCEPT"@,
    ]);
    assert(steps[at + 0] == carried[0]);
    assert(steps[at + 1] == carried[1]);
    assert(steps[at + 2] == carried[2]);
    assert(steps[at + 3] == carried[3]);
    assert(steps[at + 4] == carried[4]);
}

/// The rules of a translated network are there only where one is configured,
/// and only there the host forwards.
pub proof fn law_other_networks_have_no_rules(edition: Edition, config: &Config, pid: int, i: int)
    requires
        config.container.network != NetworkMode::Nat,
        0 <= i < host_steps(edition, config, pid).len(),
    ensures
        !(host_steps(edition, config, pid)[i] is EnsureRule),
        !(host_steps(edition, config, pid)[i] is AcquireLease),
        !(host_steps(edition, config, pid)[i] is EnableForwarding),
{
}

/// A container on the network of the host changes nothing there, and one
/// without links has none.
pub proof fn law_unconnected_containers_have_no_links(edition: Edition, config: &Config, pid: int)
    requires
        config.container.network == NetworkMode::Host || config.container.network
            == NetworkMode::Isolated,
    ensures
        forall|i: int|
            0 <= i < host_steps(edition, config, pid).len() ==> (#[trigger] host_steps(
                edition,
                config,
                pid,
            )[i]) is EnterHost,
        config.container.network == NetworkMode::Host ==> host_steps(edition, config, pid).len()
            == 0,
        config.container.network == NetworkMode::Isolated ==> host_steps(
            edition,
            config,
            pid,
        ).len() == 1,
        starting_network(config, pid).host_link is None,
        starting_network(config, pid).peer_link is None,
{
}

/// A connected container gets a pair of links that carry its number: after the
/// pair is made on the host, one side is put on the bridge of its mode and
/// switched on, and the other is handed to the container. The bridge is there
/// first, except the host's own.
#[verifier::rlimit(60)]
pub proof fn law_links_tie_the_container_to_its_bridge(
    edition: Edition,
    config: &Config,
    pid: int,
)
    requires
        config.container.network == NetworkMode::Nat || config.container.network
            == NetworkMode::Gateway || config.container.network == NetworkMode::Dhcp,
    ensures
        ({
            let options = config.container.network_options;
            let mode = config.container.network;
            let steps = host_steps(edition, config, pid);
            let host = "dsv"@ + signed_decimal(pid);
            let peer = "dsp"@ + signed_decimal(pid);
            let bridge = if mode == NetworkMode::Nat {
                options.bridge@
            } else {
                options.gateway_bridge@
            };
            let made = NetworkStep::Ip(
                seq!["link"@, "add"@, host, "type"@, "veth"@, "peer"@, "name"@, peer],
            );
            let tied = NetworkStep::Ip(seq!["link"@, "set"@, host, "master"@, bridge]);
            let lit = NetworkStep::Ip(seq!["link"@, "set"@, host, "up"@]);
            let handed = NetworkStep::Ip(
                seq!["link"@, "set"@, peer, "netns"@, signed_decimal(pid)],
            );
            &&& steps[0] == NetworkStep::<Seq<char>, Texts>::EnterHost
            &&& taken_in_order(steps, made, tied)
            &&& taken_in_order(steps, tied, lit)
            &&& taken_in_order(steps, made, handed)
            &&& mode != NetworkMode::Gateway ==> taken_in_order(
                steps,
                NetworkStep::EnsureBridge(bridge),
                NetworkStep::Ip(seq!["link"@, "set"@, bridge, "up"@]),
            ) && taken_in_order(steps, NetworkStep::EnsureBridge(bridge), tied)
            &&& mode == NetworkMode::Nat ==> taken_in_order(
                steps,
                NetworkStep::EnsureBridge(bridge),
                NetworkStep::IpAllowExists(
                    seq![
                        "address"@,
                        "add"@,
                        options.gateway.dotted() + "/"@ + decimal(options.prefix as nat),
                        "dev"@,
                        bridge,
                    ],
                ),
            )
            &&& starting_network(config, pid).host_link == Some(host)
            &&& starting_network(config, pid).peer_link == Some(peer)
        }),
{
    let options = config.container.network_options;
    let mode = config.container.network;
    let steps = host_steps(edition, config, pid);
    let links = link_steps(mode, pid, &options);
    let before = bridge_steps(mode, &options);
    let host = "dsv"@ + signed_decimal(pid);
    let peer = "dsp"@ + signed_decimal(pid);
    assert(seq!["link"@, "add"@, host, "type"@] + seq!["veth"@, "peer"@, "name"@, peer] =~= seq![
        "link"@,
        "add"@,
        host,
        "type"@,
        "veth"@,
        "peer"@,
        "name"@,
        peer,
    ]);
    assert forall|i: int| 0 <= i < links.len() implies steps[1 + i] == #[trigger] links[i] by {}
    let n: int = before.len() as int;
    assert(steps[1 + n] == links[n]);
    assert(steps[1 + (n + 1)] == links[n + 1]);
    assert(steps[1 + (n + 2)] == links[n + 2]);
    assert(steps[1 + (n + 3)] == links[n + 3]);
    if mode != NetworkMode::Gateway {
        assert(links[0] == before[0]);
        assert(steps[1] == links[0]);
        assert(links[n - 1] == before[n - 1]);
        assert(steps[1 + (n - 1)] == links[n - 1]);
        if mode == NetworkMode::Nat {
            assert(links[1] == before[1]);
            assert(steps[2] == links[1]);
        }
    }
}

/// The network of an address agrees with it in the bits of the prefix, the
/// highest of the address, and has no other bits.
pub proof fn law_network_keeps_the_prefix(address: Ipv4Address, prefix: u8, k: u32)
    requires
        prefix <= 32,
        k < 32,
    ensures
        (network_of(address, prefix).bits >> k) & 1 == if 32 - k <= prefix {
            (address.bits >> k) & 1
        } else {
            0
        },
{
    let bits = address.bits;
    if prefix == 0 {
        assert(((bits & 0u32) >> k) & 1 == 0) by (bit_vector);
    } else {
        let shift = (32 - prefix) as u32;
        assert(((bits & (0xffff_ffffu32 << shift)) >> k) & 1 == if shift <= k {
            (bits >> k) & 1
        } else {
            0
        }) by (bit_vector)
            requires
                shift < 32,
                k < 32,
        ;
    }
}

/// The deletion of a rule is the rule with its command replaced, so that it
/// names that rule and no other.
pub proof fn law_deletion_names_the_rule(rule: Texts, at: int)
    requires
        0 <= at < rule.len(),
        rule[at] == "-A"@,
        forall|k: int| 0 <= k < at ==> #[trigger] rule[k] != "-A"@,
    ensures
        deletion(rule) == rule.update(at, "-D"@),
        with_first(rule, "-A"@, "-C"@) == rule.update(at, "-C"@),
{
    lemma_index_is(rule, "-A"@, 0, at);
}

/// Taking a network down deletes every rule that it has, the last one first,
/// then its link, and gives the lease up last.
pub proof fn law_cleanup_covers_the_network(network: NetworkView, i: int)
    requires
        0 <= i < network.rules.len(),
    ensures
        cleanup_steps(network)[network.rules.len() - 1 - i] == CleanupStep::<
            Seq<char>,
            Texts,
        >::DeleteRule(deletion(network.rules[i])),
        cleanup_steps(network).len() == network.rules.len() + (if network.host_link is Some {
            1int
        } else {
            0
        }) + (if network.nat_lease {
            1int
        } else {
            0
        }),
        network.host_link matches Some(link) ==> cleanup_steps(network)[network.rules.len() as int]
            == CleanupStep::<Seq<char>, Texts>::DeleteLink(link),
        network.nat_lease ==> cleanup_steps(network).last() == CleanupStep::<
            Seq<char>,
            Texts,
        >::ReleaseLease,
{
}

/// Ports of the host that differ, or that are of different transports, have
/// rules that differ.
pub proof fn law_ports_have_rules_of_their_own(
    address: Ipv4Address,
    a: PortForward,
    b: PortForward,
    mark: Seq<char>,
)
    requires
        sends_on(address, a, mark) == sends_on(address, b, mark),
    ensures
        a.host == b.host,
        a.protocol == b.protocol,
{
    lemma_rule_words();
    let first = sends_on(address, a, mark);
    let second = sends_on(address, b, mark);
    assert(first[7] == second[7] && first[5] == second[5]);
    lemma_decimals_differ(a.host as nat, b.host as nat);
}

// ---------------------------------------------------------------------------
// Inside the container
// ---------------------------------------------------------------------------
/// The arguments of `ip` inside the container, in order.
pub open spec fn child_commands(config: &Config, peer: Seq<char>) -> Seq<Texts> {
    let mode = config.container.network;
    let options = config.container.network_options;
    if mode == NetworkMode::Host {
        Seq::empty()
    } else {
        seq![seq!["link"@, "set"@, "lo"@, "up"@]] + (if bridged(mode) {
            seq![
                seq!["link"@, "set"@, peer, "name"@, "eth0"@],
                seq!["link"@, "set"@, "eth0"@, "up"@],
            ] + (if mode == NetworkMode::Nat {
                seq![
                    seq![
                        "address"@,
                        "add"@,
                        with_prefix(options.address, options.prefix),
                        "dev"@,
                        "eth0"@,
                    ],
                    seq!["route"@, "add"@, "default"@, "via"@, options.gateway.dotted()],
                ]
            } else {
                Seq::empty()
            })
        } else {
            Seq::empty()
        })
    }
}

impl Network {
    /// The arguments of `ip` inside the container, in order.
    pub fn setup_child(config: &Config, peer_name: &str) -> (commands: Vec<Vec<String>>)
        ensures
            rule_views(commands@) == child_commands(config, peer_name@),
    {
        let mode = config.container.network;
        let options = &config.container.network_options;
        let mut commands: Vec<Vec<String>> = Vec::new();
        if mode != NetworkMode::Host {
            commands.push(texts4("link", "set", "lo", "up"));
            if mode != NetworkMode::Isolated {
                commands.push(texts5("link", "set", peer_name, "name", "eth0"));
                commands.push(texts4("link", "set", "eth0", "up"));
                if mode == NetworkMode::Nat {
                    let address = prefixed(options.address, options.prefix);
                    commands.push(texts5("address", "add", &address, "dev", "eth0"));
                    commands.push(
                        texts5("route", "add", "default", "via", &options.gateway.text()),
                    );
                }
            }
        }
        assert(rule_views(commands@) =~= child_commands(config, peer_name@));
        commands
    }
}

/// Inside its own network a container has its loopback; where it is connected
/// its link is called `eth0` and is switched on; and where its network is
/// translated the link has the configured address, and everything leads to
/// the gateway.
pub proof fn law_container_configures_its_link(config: &Config, peer: Seq<char>)
    ensures
        ({
            let mode = config.container.network;
            let options = config.container.network_options;
            let commands = child_commands(config, peer);
            &&& commands.len() == (match mode {
                NetworkMode::Host => 0int,
                NetworkMode::Isolated => 1,
                NetworkMode::Nat => 5,
                NetworkMode::Gateway => 3,
                NetworkMode::Dhcp => 3,
            })
            &&& mode != NetworkMode::Host ==> commands[0] == seq!["link"@, "set"@, "lo"@, "up"@]
            &&& mode != NetworkMode::Host && mode != NetworkMode::Isolated ==> {
                &&& commands[1] == seq!["link"@, "set"@, peer, "name"@, "eth0"@]
                &&& commands[2] == seq!["link"@, "set"@, "eth0"@, "up"@]
            }
            &&& mode == NetworkMode::Nat ==> {
                &&& commands[3] == seq![
                    "address"@,
                    "add"@,
                    options.address.dotted() + "/"@ + decimal(options.prefix as nat),
                    "dev"@,
                    "eth0"@,
                ]
                &&& commands[4] == seq![
                    "route"@,
                    "add"@,
                    "default"@,
                    "via"@,
                    options.gateway.dotted(),
                ]
            }
        }),
{
}

/// The programs that ask for an address.
#[derive(Clone, Copy, Debug, PartialEq, Eq, Structural)]
pub enum DhcpClient {
    Udhcpc,
    Dhclient,
    Dhcpcd,
}

impl DhcpClient {
    pub open spec fn text(self) -> Seq<char> {
        match self {
            DhcpClient::Udhcpc => "udhcpc"@,
            DhcpClient::Dhclient => "dhclient"@,
            DhcpClient::Dhcpcd => "dhcpcd"@,
        }
    }

    pub open spec fn flags(self) -> Texts {
        match self {
            DhcpClient::Udhcpc => seq!["-n"@, "-q"@, "-i"@, "eth0"@],
            DhcpClient::Dhclient => seq!["-1"@, "-v"@, "eth0"@],
            DhcpClient::Dhcpcd => seq!["-1"@, "eth0"@],
        }
    }

    /// The name of the program.
    pub fn program(self) -> (name: &'static str)
        ensures
            name@ == self.text(),
    {
        match self {
            DhcpClient::Udhcpc => "udhcpc",
            DhcpClient::Dhclient => "dhclient",
            DhcpClient::Dhcpcd => "dhcpcd",
        }
    }

    /// The arguments of the program.
    pub fn arguments(self) -> (arguments: Vec<String>)
        ensures
            views(arguments@) == self.flags(),
    {
        broadcast use {lemma_views_push, lemma_views_empty};

        let mut arguments: Vec<String> = Vec::new();
        match self {
            DhcpClient::Udhcpc => {
                arguments.push("-n".to_owned());
                arguments.push("-q".to_owned());
                arguments.push("-i".to_owned());
            },
            DhcpClient::Dhclient => {
                arguments.push("-1".to_owned());
                arguments.push("-v".to_owned());
            },
            DhcpClient::Dhcpcd => {
                arguments.push("-1".to_owned());
            },
        }
        arguments.push("eth0".to_owned());
        assert(views(arguments@) =~= self.flags());
        arguments
    }
}

/// What is to be done for an address.
#[derive(Clone, Copy, Debug, PartialEq, Eq, Structural)]
pub enum DhcpDecision {
    /// Nothing: the container has its address otherwise.
    Skip,
    Run(DhcpClient),
    /// The container has no program for it.
    NoClient,
}

/// What is to be done for an address, where the flags say which of the programs
/// the container has.
pub open spec fn address_decision(
    mode: NetworkMode,
    udhcpc: bool,
    dhclient: bool,
    dhcpcd: bool,
) -> DhcpDecision {
    if mode != NetworkMode::Dhcp {
        DhcpDecision::Skip
    } else if udhcpc {
        DhcpDecision::Run(DhcpClient::Udhcpc)
    } else if dhclient {
        DhcpDecision::Run(DhcpClient::Dhclient)
    } else if dhcpcd {
        DhcpDecision::Run(DhcpClient::Dhcpcd)
    } else {
        DhcpDecision::NoClient
    }
}

/// An address is asked for exactly where the configuration says so, and only by
/// a program that the container has; it fails only where there is none. Each
/// program asks for the link of the container, and gives up where no answer
/// comes.
pub proof fn law_addresses_are_asked_for(
    mode: NetworkMode,
    udhcpc: bool,
    dhclient: bool,
    dhcpcd: bool,
    client: DhcpClient,
)
    ensures
        ({
            let decision = address_decision(mode, udhcpc, dhclient, dhcpcd);
            &&& decision == DhcpDecision::Skip <==> mode != NetworkMode::Dhcp
            &&& decision == DhcpDecision::NoClient <==> mode == NetworkMode::Dhcp && !udhcpc
                && !dhclient && !dhcpcd
            &&& decision == DhcpDecision::Run(client) ==> match client {
                DhcpClient::Udhcpc => udhcpc,
                DhcpClient::Dhclient => dhclient && !udhcpc,
                DhcpClient::Dhcpcd => dhcpcd && !udhcpc && !dhclient,
            }
            &&& client.flags().last() == "eth0"@
            &&& client.flags()[0] == (match client {
                DhcpClient::Udhcpc => "-n"@,
                DhcpClient::Dhclient => "-1"@,
                DhcpClient::Dhcpcd => "-1"@,
            })
            &&& client.flags().len() == match client {
                DhcpClient::Udhcpc => 4int,
                DhcpClient::Dhclient => 3,
                DhcpClient::Dhcpcd => 2,
            }
            &&& client == DhcpClient::Udhcpc ==> client.flags()[1] == "-q"@ && client.flags()[2]
                == "-i"@
            &&& client == DhcpClient::Dhclient ==> client.flags()[1] == "-v"@
            &&& client.text() == (match client {
                DhcpClient::Udhcpc => "udhcpc"@,
                DhcpClient::Dhclient => "dhclient"@,
                DhcpClient::Dhcpcd => "dhcpcd"@,
            })
        }),
{
}

impl Network {
    /// What is to be done for an address, where the flags say which of the
    /// programs the container has.
    pub fn setup_dhcp(config: &Config, udhcpc: bool, dhclient: bool, dhcpcd: bool) -> (decision:
        DhcpDecision)
        ensures
            decision == address_decision(config.container.network, udhcpc, dhclient, dhcpcd),
            decision == if config.container.network != NetworkMode::Dhcp {
                DhcpDecision::Skip
            } else if udhcpc {
                DhcpDecision::Run(DhcpClient::Udhcpc)
            } else if dhclient {
                DhcpDecision::Run(DhcpClient::Dhclient)
            } else if dhcpcd {
                DhcpDecision::Run(DhcpClient::Dhcpcd)
            } else {
                DhcpDecision::NoClient
            },
    {
        if config.container.network != NetworkMode::Dhcp {
            DhcpDecision::Skip
        } else if udhcpc {
            DhcpDecision::Run(DhcpClient::Udhcpc)
        } else if dhclient {
            DhcpDecision::Run(DhcpClient::Dhclient)
        } else if dhcpcd {
            DhcpDecision::Run(DhcpClient::Dhcpcd)
        } else {
            DhcpDecision::NoClient
        }
    }
}

/// The lines that name the first `count` servers.
pub open spec fn dns_lines(servers: Texts, count: int) -> Seq<char>
    decreases count,
{
    if count <= 0 {
        Seq::empty()
    } else {
        dns_lines(servers, count - 1) + "nameserver "@ + servers[count - 1] + "\n"@
    }
}

/// The file that names the servers, below a root.
pub open spec fn resolver_path(root: Seq<char>) -> Seq<char> {
    join(root, "etc/resolv.conf"@)
}

/// The steps that name the servers; `dangling` says that the file is a
/// symbolic link that leads nowhere, which is then replaced.
pub open spec fn dns_steps(servers: Texts, root: Seq<char>, dangling: bool) -> Steps {
    let path = resolver_path(root);
    (match parent(path) {
        Some(directory) => seq![Action::CreateDirAll(directory)],
        None => Seq::empty(),
    }) + (if dangling {
        seq![Action::RemoveFile(path)]
    } else {
        Seq::empty()
    }) + seq![Action::WriteFile { path, contents: dns_lines(servers, servers.len() as int) }]
}

proof fn lemma_dns_lines(a: Texts, b: Texts, count: int)
    requires
        0 <= count <= b.len(),
    ensures
        dns_lines(a + b, a.len() + count) == dns_lines(a, a.len() as int) + dns_lines(b, count),
    decreases count,
{
    if count > 0 {
        lemma_dns_lines(a, b, count - 1);
        assert((a + b)[a.len() + count - 1] == b[count - 1]);
        assert(dns_lines(a + b, a.len() + count) =~= dns_lines(a, a.len() as int) + dns_lines(
            b,
            count,
        ));
    } else {
        lemma_dns_prefix(a, b, a.len() as int);
        assert(dns_lines(a, a.len() as int) + dns_lines(b, 0) =~= dns_lines(a, a.len() as int));
    }
}

proof fn lemma_dns_prefix(a: Texts, b: Texts, count: int)
    requires
        0 <= count <= a.len(),
    ensures
        dns_lines(a + b, count) == dns_lines(a, count),
    decreases count,
{
    if count > 0 {
        lemma_dns_prefix(a, b, count - 1);
        assert((a + b)[count - 1] == a[count - 1]);
    }
}

/// Every server has a line of its own: the text of a joined list is the joined
/// text of its parts, and one server is one line that names it.
pub proof fn law_every_server_is_named(a: Texts, b: Texts, server: Seq<char>)
    ensures
        dns_lines(a + b, (a + b).len() as int) == dns_lines(a, a.len() as int) + dns_lines(
            b,
            b.len() as int,
        ),
        dns_lines(seq![server], 1) == "nameserver "@ + server + "\n"@,
        dns_lines(Seq::empty(), 0).len() == 0,
{
    lemma_dns_lines(a, b, b.len() as int);
    reveal_with_fuel(dns_lines, 2);
    assert(dns_lines(seq![server], 1) =~= "nameserver "@ + server + "\n"@);
}

/// The servers are written to the file that programs read them from, after a
/// symbolic link that leads nowhere is out of the way.
pub proof fn law_servers_are_written(servers: Texts, root: Seq<char>, dangling: bool)
    requires
        root.len() > 0,
    ensures
        ({
            let steps = dns_steps(servers, root, dangling);
            let path = if root.last() == '/' {
                root + "etc/resolv.conf"@
            } else {
                root + "/etc/resolv.conf"@
            };
            &&& steps.last() == (Action::WriteFile {
                path,
                contents: dns_lines(servers, servers.len() as int),
            })
            &&& dangling ==> steps.len() >= 2 && steps[steps.len() - 2] == Action::RemoveFile(path)
            &&& !dangling ==> forall|i: int|
                0 <= i < steps.len() ==> !((#[trigger] steps[i]) is RemoveFile)
        }),
{
    reveal_strlit("etc/resolv.conf");
    reveal_strlit("/etc/resolv.conf");
    assert(root + seq!['/'] + "etc/resolv.conf"@ =~= root + "/etc/resolv.conf"@);
}

/// The text that names the servers.
pub fn dns_text(servers: &Vec<String>) -> (text: String)
    ensures
        text@ == dns_lines(views(servers@), servers@.len() as int),
{
    let ghost all = views(servers@);
    let mut text = String::new();
    let mut i: usize = 0;
    while i < servers.len()
        invariant
            i <= servers@.len(),
            all == views(servers@),
            text@ == dns_lines(all, i as int),
        decreases servers.len() - i,
    {
        assert(all[i as int] == servers@[i as int]@);
        text.append("nameserver ");
        text.append(&servers[i]);
        text.append("\n");
        i += 1;
    }
    text
}

impl Network {
    /// The file that names the servers, below a root.
    pub fn dns_path(rootfs: &str) -> (path: String)
        ensures
            path@ == resolver_path(rootfs@),
    {
        join_paths(rootfs, "etc/resolv.conf")
    }

    /// The steps that name the configured servers below a root.
    pub fn write_dns(config: &Config, rootfs: &str, dangling: bool) -> (plan: Vec<Action<String>>)
        ensures
            views(plan@) == dns_steps(
                views(config.container.network_options.dns@),
                rootfs@,
                dangling,
            ),
    {
        broadcast use {lemma_views_push, lemma_views_empty};

        let servers = &config.container.network_options.dns;
        let path = Network::dns_path(rootfs);
        let mut plan: Vec<Action<String>> = Vec::new();
        if let Some(directory) = parent_path(&path) {
            plan.push(create_dir_all(&directory));
        }
        if dangling {
            plan.push(Action::RemoveFile(path.clone()));
        }
        plan.push(write_file(&path, &dns_text(servers)));
        assert(views(servers@).len() == servers@.len());
        assert(views(plan@) =~= dns_steps(views(servers@), rootfs@, dangling));
        plan
    }
}

/// The record of the lease on forwarding, in the directory that the runtime
/// keeps on the host for all containers.
pub fn nat_lease_path(directory: &str) -> (path: String)
    ensures
        path@ == join(directory@, "network-state.json"@),
{
    join_paths(directory, "network-state.json")
}

/// A program of the host is looked for in the directories of the system, and
/// one of the container in those of a container, under its own name.
pub proof fn law_programs_are_looked_for_in_order(i: int)
    ensures
        0 <= i < 4 ==> program_places("ip"@)[i] == join(host_directories()[i], "ip"@),
        0 <= i < 4 ==> program_places("iptables"@)[i] == join(host_directories()[i], "iptables"@),
        program_places("ip"@).len() == 4,
        program_places("iptables"@).len() == 4,
        program_directories().len() == 5,
        program_directories().last() == "/system/bin"@,
        program_directories().contains("/usr/sbin"@),
        program_directories().contains("/sbin"@),
        program_directories().contains("/usr/bin"@),
        program_directories().contains("/bin"@),
{
    reveal_strlit("ip");
    reveal_strlit("iptables");
    reveal_strlit("/system/bin");
    reveal_strlit("/usr/sbin");
    reveal_strlit("/sbin");
    reveal_strlit("/usr/bin");
    reveal_strlit("/system/bin/ip");
    reveal_strlit("/usr/sbin/ip");
    reveal_strlit("/sbin/ip");
    reveal_strlit("/usr/bin/ip");
    reveal_strlit("/system/bin/iptables");
    reveal_strlit("/usr/sbin/iptables");
    reveal_strlit("/sbin/iptables");
    reveal_strlit("/usr/bin/iptables");
    assert(join("/system/bin"@, "ip"@) =~= "/system/bin/ip"@);
    assert(join("/usr/sbin"@, "ip"@) =~= "/usr/sbin/ip"@);
    assert(join("/sbin"@, "ip"@) =~= "/sbin/ip"@);
    assert(join("/usr/bin"@, "ip"@) =~= "/usr/bin/ip"@);
    assert(join("/system/bin"@, "iptables"@) =~= "/system/bin/iptables"@);
    assert(join("/usr/sbin"@, "iptables"@) =~= "/usr/sbin/iptables"@);
    assert(join("/sbin"@, "iptables"@) =~= "/sbin/iptables"@);
    assert(join("/usr/bin"@, "iptables"@) =~= "/usr/bin/iptables"@);
    assert("ip"@.len() == 2 && "iptables"@.len() == 8);
    let own = program_directories();
    assert(own[0] == "/usr/sbin"@ && own[1] == "/sbin"@ && own[2] == "/usr/bin"@ && own[3]
        == "/bin"@);
}

/// The directories of the system, in the order in which they are looked at.
pub open spec fn host_directories() -> Texts {
    seq!["/system/bin"@, "/usr/sbin"@, "/sbin"@, "/usr/bin"@]
}

} // verus!
