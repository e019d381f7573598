//! Control groups: where their hierarchies are, and how the limits of a
//! container are written into them.
use vstd::prelude::*;

use crate::config::model::ResourceConfig;
use crate::edition::Edition;
use crate::helper::fs::{optional_view, Mount, INERT, TMPFS_MAGIC};
use crate::path::{absolute, join, join_paths};
use crate::plan::{create_dir_all, mount, mount_step, write_file, Action, Steps};
use crate::runtime::info::{signed_decimal, signed_text};
use crate::text::{
    chars_of, decimal, decimal_text, joined, joined3, lemma_split_append, lemma_split_join,
    lemma_views_empty, lemma_views_push, lines, lines_of, same, split_on, split_text, views, words, words_of,
};

verus! {

// ---------------------------------------------------------------------------
// Mounts of the host
// ---------------------------------------------------------------------------
/// A mount of the host.
#[derive(Debug, PartialEq, Eq)]
pub struct MountEntry {
    pub fs_type: String,
    pub mount_point: String,
    /// The names of the options of its file system.
    pub options: Vec<String>,
}

/// A mount of the host, as it is written down in contracts.
#[verifier::ext_equal]
pub struct MountView {
    pub fs_type: Seq<char>,
    pub mount_point: Seq<char>,
    pub options: Seq<Seq<char>>,
}

impl View for MountEntry {
    type V = MountView;

    open spec fn view(&self) -> MountView {
        MountView {
            fs_type: self.fs_type@,
            mount_point: self.mount_point@,
            options: views(self.options@),
        }
    }
}

/// The position of the first field from `i` on that is a lone hyphen, or the
/// number of the fields.
pub open spec fn hyphen_from(fields: Seq<Seq<char>>, i: int) -> int
    decreases fields.len() - i,
{
    if i < 0 || i >= fields.len() {
        fields.len() as int
    } else if fields[i] == "-"@ {
        i
    } else {
        hyphen_from(fields, i + 1)
    }
}

/// The mount that a line of the kernel's list describes: the mount point is
/// its fifth field; after a hyphen come the type, the source and the options.
pub open spec fn mount_line(line: Seq<char>) -> Option<MountView> {
    let fields = words(line);
    let hyphen = hyphen_from(fields, 0);
    if hyphen + 1 < fields.len() && 4 < fields.len() {
        Some(
            MountView {
                fs_type: fields[hyphen + 1],
                mount_point: fields[4],
                options: if hyphen + 3 < fields.len() {
                    split_on(fields[hyphen + 3], ',')
                } else {
                    seq![Seq::<char>::empty()]
                },
            },
        )
    } else {
        None
    }
}

/// The mounts that lines of the kernel's list describe.
pub open spec fn mount_lines(all: Seq<Seq<char>>) -> Seq<MountView>
    decreases all.len(),
{
    if all.len() == 0 {
        Seq::empty()
    } else {
        let before = mount_lines(all.drop_last());
        match mount_line(all.last()) {
            Some(entry) => before.push(entry),
            None => before,
        }
    }
}

fn parse_mount_line(line: &str) -> (entry: Option<MountEntry>)
    ensures
        (match entry {
            Some(entry) => Some(entry@),
            None => None,
        }) == mount_line(line@),
{
    let fields = words_of(line);
    let ghost model = words(line@);
    assert(model.len() == fields@.len());
    let count: usize = fields.len();
    let mut hyphen: usize = 0;
    while hyphen < count
        invariant
            hyphen <= count,
            count == fields@.len(),
            model == views(fields@),
            model == words(line@),
            hyphen_from(model, 0) == hyphen_from(model, hyphen as int),
            forall|k: int| 0 <= k < hyphen ==> #[trigger] model[k] != "-"@,
        decreases count - hyphen,
    {
        assert(model[hyphen as int] == fields@[hyphen as int]@);
        if same(&fields[hyphen], "-") {
            if hyphen + 1 < count && 4 < count {
                assert(model[hyphen + 1] == fields@[hyphen + 1]@);
                assert(model[4] == fields@[4]@);
                let options = if 3 < count - hyphen {
                    assert(model[hyphen + 3] == fields@[hyphen + 3]@);
                    split_text(&chars_of(&fields[hyphen + 3]), ',')
                } else {
                    let mut none: Vec<String> = Vec::new();
                    none.push(String::new());
                    assert(views(none@) =~= seq![Seq::<char>::empty()]);
                    none
                };
                return Some(
                    MountEntry {
                        fs_type: fields[hyphen + 1].clone(),
                        mount_point: fields[4].clone(),
                        options,
                    },
                );
            }
            return None;
        }
        hyphen += 1;
    }
    None
}

/// The mounts that the kernel's list describes.
pub fn parse_mountinfo(source: &str) -> (entries: Vec<MountEntry>)
    ensures
        views(entries@) == mount_lines(lines(source@)),
{
    broadcast use {lemma_views_push, lemma_views_empty};

    let all = lines_of(source);
    let ghost model = lines(source@);
    assert(model.len() == all@.len());
    let mut entries: Vec<MountEntry> = Vec::new();
    let mut i: usize = 0;
    assert(views(entries@) =~= mount_lines(model.take(0)));
    while i < all.len()
        invariant
            i <= all@.len(),
            model == views(all@),
            views(entries@) == mount_lines(model.take(i as int)),
        decreases all.len() - i,
    {
        broadcast use {lemma_views_push, lemma_views_empty};

        assert(model.take(i + 1).drop_last() =~= model.take(i as int));
        assert(model.take(i + 1).last() == all@[i as int]@);
        if let Some(entry) = parse_mount_line(&all[i]) {
            entries.push(entry);
        }
        i += 1;
    }
    assert(model.take(i as int) =~= model);
    entries
}

// ---------------------------------------------------------------------------
// The unified hierarchy
// ---------------------------------------------------------------------------
/// The first mount from position `i` on that is the unified hierarchy.
pub open spec fn unified_root_from(entries: Seq<MountView>, i: int) -> Option<Seq<char>>
    decreases entries.len() - i,
{
    if i < 0 || i >= entries.len() {
        None
    } else if entries[i].fs_type == "cgroup2"@ {
        Some(entries[i].mount_point)
    } else {
        unified_root_from(entries, i + 1)
    }
}

/// The root of the unified hierarchy.
pub fn cgroup2_root(entries: &Vec<MountEntry>) -> (root: Option<String>)
    ensures
        optional_view(root) == unified_root_from(views(entries@), 0),
{
    let ghost model = views(entries@);
    let mut i: usize = 0;
    while i < entries.len()
        invariant
            i <= entries@.len(),
            model == views(entries@),
            unified_root_from(model, 0) == unified_root_from(model, i as int),
        decreases entries.len() - i,
    {
        assert(model[i as int] == entries@[i as int]@);
        if same(&entries[i].fs_type, "cgroup2") {
            return Some(entries[i].mount_point.clone());
        }
        i += 1;
    }
    None
}

/// Where the unified hierarchy comes from.
#[derive(Clone, Copy, Debug, PartialEq, Eq, Structural)]
pub enum UnifiedDecision {
    /// It is mounted.
    Mounted,
    /// It is not, and is not to be.
    Unavailable,
    /// It is to be mounted.
    Bootstrap,
}

/// Where the unified hierarchy comes from.
pub fn ensure_cgroup2_root(mounted: bool, bootstrap: bool) -> (decision: UnifiedDecision)
    ensures
        decision == if mounted {
            UnifiedDecision::Mounted
        } else if bootstrap {
            UnifiedDecision::Bootstrap
        } else {
            UnifiedDecision::Unavailable
        },
{
    if mounted {
        UnifiedDecision::Mounted
    } else if bootstrap {
        UnifiedDecision::Bootstrap
    } else {
        UnifiedDecision::Unavailable
    }
}

/// The base of all hierarchies, where the file system there has this type:
/// one in memory is mounted unless it is there.
pub open spec fn base_steps(filesystem: i64) -> Steps {
    if filesystem != TMPFS_MAGIC {
        seq![
            mount_step(
                Some("none"@),
                "/sys/fs/cgroup"@,
                Some("tmpfs"@),
                INERT,
                Some("mode=755,size=16M"@),
            ),
        ]
    } else {
        Seq::empty()
    }
}

/// The base of all hierarchies, where the file system there has this type.
pub fn cgroup_base(filesystem: i64) -> (plan: Vec<Action<String>>)
    ensures
        views(plan@) == base_steps(filesystem),
{
    broadcast use {lemma_views_push, lemma_views_empty};

    let mut plan: Vec<Action<String>> = Vec::new();
    if filesystem != TMPFS_MAGIC {
        plan.push(
            mount(
                Some("none"),
                "/sys/fs/cgroup",
                Some("tmpfs"),
                INERT,
                Some("mode=755,size=16M"),
            ),
        );
    }
    assert(views(plan@) =~= base_steps(filesystem));
    plan
}

/// The mount of the unified hierarchy.
pub fn cgroup2_mount() -> (action: Action<String>)
    ensures
        action@ == mount_step(
            Some("none"@),
            "/sys/fs/cgroup"@,
            Some("cgroup2"@),
            INERT,
            None,
        ),
{
    mount(Some("none"), "/sys/fs/cgroup", Some("cgroup2"), INERT, None)
}

/// What is undone where the unified hierarchy cannot be mounted: the base, if
/// it was mounted for it.
pub fn cgroup2_undo(filesystem: i64) -> (action: Option<Action<String>>)
    ensures
        match action {
            Some(action) => filesystem != TMPFS_MAGIC && action@ == (Action::Unmount {
                path: "/sys/fs/cgroup"@,
                detach: false,
            }),
            None => filesystem == TMPFS_MAGIC,
        },
{
    if filesystem != TMPFS_MAGIC {
        Some(Action::Unmount { path: "/sys/fs/cgroup".to_owned(), detach: false })
    } else {
        None
    }
}

/// The root of a hierarchy that was just mounted: only one that lists its
/// controllers is used.
pub fn cgroup2_confirmed(root: Option<String>, controllers: bool) -> (result: Option<String>)
    ensures
        result == if controllers {
            root
        } else {
            None
        },
{
    if controllers {
        root
    } else {
        None
    }
}

// ---------------------------------------------------------------------------
// Hierarchies of their own
// ---------------------------------------------------------------------------
/// What a hierarchy controls.
#[derive(Clone, Copy, Debug, PartialEq, Eq, Structural)]
pub enum Controller {
    Memory,
    Cpu,
    Pids,
}

impl Controller {
    pub open spec fn text(self) -> Seq<char> {
        match self {
            Controller::Memory => "memory"@,
            Controller::Cpu => "cpu"@,
            Controller::Pids => "pids"@,
        }
    }

    /// The name of the controller.
    pub fn name(self) -> (name: &'static str)
        ensures
            name@ == self.text(),
    {
        match self {
            Controller::Memory => "memory",
            Controller::Cpu => "cpu",
            Controller::Pids => "pids",
        }
    }
}

/// Whether a limit or the init system asks for a control group.
pub open spec fn group_needed(resources: ResourceConfig, required: bool) -> bool {
    required || resources.memory_bytes is Some || resources.cpu_quota is Some || resources.pids
        is Some
}

/// Whether a limit or the init system asks for a control group.
pub fn cgroup_required(resources: &ResourceConfig, required: bool) -> (result: bool)
    ensures
        result == group_needed(*resources, required),
{
    required || resources.memory_bytes.is_some() || resources.cpu_quota.is_some()
        || resources.pids.is_some()
}

/// One controller under a condition.
pub open spec fn only_if(condition: bool, controller: Controller) -> Seq<Controller> {
    if condition {
        seq![controller]
    } else {
        Seq::empty()
    }
}

/// The controllers that are needed. An init system that requires a control
/// group gets one even without limits.
pub open spec fn needed_controllers(resources: ResourceConfig, required: bool) -> Seq<Controller> {
    let limits = only_if(resources.memory_bytes is Some, Controller::Memory) + only_if(
        resources.cpu_quota is Some,
        Controller::Cpu,
    ) + only_if(resources.pids is Some, Controller::Pids);
    if required && limits.len() == 0 {
        seq![Controller::Pids]
    } else {
        limits
    }
}

/// The controllers that are needed.
pub fn requested_controllers(resources: &ResourceConfig, required: bool) -> (controllers: Vec<
    Controller,
>)
    ensures
        controllers@ == needed_controllers(*resources, required),
{
    let mut controllers: Vec<Controller> = Vec::new();
    if resources.memory_bytes.is_some() {
        controllers.push(Controller::Memory);
    }
    if resources.cpu_quota.is_some() {
        controllers.push(Controller::Cpu);
    }
    if resources.pids.is_some() {
        controllers.push(Controller::Pids);
    }
    assert(controllers@ =~= only_if(resources.memory_bytes is Some, Controller::Memory) + only_if(
        resources.cpu_quota is Some,
        Controller::Cpu,
    ) + only_if(resources.pids is Some, Controller::Pids));
    if required && controllers.len() == 0 {
        controllers.push(Controller::Pids);
        assert(controllers@ =~= seq![Controller::Pids]);
    }
    controllers
}

/// A control group is needed exactly where some controller is.
pub proof fn law_needed_groups_have_controllers(resources: ResourceConfig, required: bool)
    ensures
        group_needed(resources, required) <==> needed_controllers(resources, required).len() > 0,
{
}

/// The roots of the hierarchies that are mounted.
#[derive(Debug, PartialEq, Eq)]
pub struct ControllerRoots {
    pub memory: Option<String>,
    pub cpu: Option<String>,
    pub pids: Option<String>,
}

impl ControllerRoots {
    /// The root of the hierarchy with this controller.
    pub open spec fn of(&self, controller: Controller) -> Option<Seq<char>> {
        match controller {
            Controller::Memory => optional_view(self.memory),
            Controller::Cpu => optional_view(self.cpu),
            Controller::Pids => optional_view(self.pids),
        }
    }

    /// The root of the hierarchy with this controller.
    pub fn get(&self, controller: Controller) -> (root: Option<String>)
        ensures
            optional_view(root) == self.of(controller),
    {
        let root = match controller {
            Controller::Memory => &self.memory,
            Controller::Cpu => &self.cpu,
            Controller::Pids => &self.pids,
        };
        match root {
            Some(path) => Some(path.clone()),
            None => None,
        }
    }
}

/// Whether one of the options has this name.
pub open spec fn has_option(options: Seq<Seq<char>>, name: Seq<char>) -> bool {
    exists|i: int| 0 <= i < options.len() && #[trigger] options[i] == name
}

/// The first mount from position `i` on with this controller.
pub open spec fn root_from(entries: Seq<MountView>, controller: Controller, i: int) -> Option<
    Seq<char>,
>
    decreases entries.len() - i,
{
    if i < 0 || i >= entries.len() {
        None
    } else if entries[i].fs_type == "cgroup"@ && has_option(
        entries[i].options,
        controller.text(),
    ) {
        Some(entries[i].mount_point)
    } else {
        root_from(entries, controller, i + 1)
    }
}

fn contains_option(options: &Vec<String>, name: &str) -> (result: bool)
    ensures
        result == has_option(views(options@), name@),
{
    let ghost model = views(options@);
    let mut i: usize = 0;
    while i < options.len()
        invariant
            i <= options@.len(),
            model == views(options@),
            forall|k: int| 0 <= k < i ==> #[trigger] model[k] != name@,
        decreases options.len() - i,
    {
        assert(model[i as int] == options@[i as int]@);
        if same(&options[i], name) {
            return true;
        }
        i += 1;
    }
    false
}

fn find_root(entries: &Vec<MountEntry>, controller: Controller) -> (root: Option<String>)
    ensures
        optional_view(root) == root_from(views(entries@), controller, 0),
{
    let ghost model = views(entries@);
    let mut i: usize = 0;
    while i < entries.len()
        invariant
            i <= entries@.len(),
            model == views(entries@),
            root_from(model, controller, 0) == root_from(model, controller, i as int),
        decreases entries.len() - i,
    {
        assert(model[i as int] == entries@[i as int]@);
        if same(&entries[i].fs_type, "cgroup") && contains_option(
            &entries[i].options,
            controller.name(),
        ) {
            return Some(entries[i].mount_point.clone());
        }
        i += 1;
    }
    None
}

/// The roots of the hierarchies among the mounts of the host: the first mount
/// with each controller.
pub fn parse_cgroup1_roots(entries: &Vec<MountEntry>) -> (roots: ControllerRoots)
    ensures
        forall|controller: Controller| #[trigger]
            roots.of(controller) == root_from(views(entries@), controller, 0),
{
    ControllerRoots {
        memory: find_root(entries, Controller::Memory),
        cpu: find_root(entries, Controller::Cpu),
        pids: find_root(entries, Controller::Pids),
    }
}

/// A controller and the root of its hierarchy.
#[derive(Debug, PartialEq, Eq)]
pub struct ControllerRoot {
    pub controller: Controller,
    pub root: String,
}

impl View for ControllerRoot {
    type V = (Controller, Seq<char>);

    open spec fn view(&self) -> (Controller, Seq<char>) {
        (self.controller, self.root@)
    }
}

/// Whether all controllers have a hierarchy.
pub open spec fn all_mounted(controllers: Seq<Controller>, roots: &ControllerRoots) -> bool {
    forall|i: int|
        0 <= i < controllers.len() ==> roots.of(#[trigger] controllers[i]) is Some
}

/// The controllers with the roots of their hierarchies.
pub open spec fn rooted(controllers: Seq<Controller>, roots: &ControllerRoots) -> Seq<
    (Controller, Seq<char>),
> {
    controllers.map_values(|controller: Controller| (controller, roots.of(controller)->0))
}

/// Where the hierarchies come from.
#[derive(Debug, PartialEq, Eq)]
pub enum HierarchyDecision {
    /// These are used.
    Use(Vec<ControllerRoot>),
    /// They are to be mounted.
    Bootstrap,
    /// They are not mounted, and are not to be.
    NotMounted,
    /// They were to be mounted and are not.
    MountFailed,
}

/// Where the hierarchies for the controllers come from. `attempted` says that
/// they have been mounted just now.
pub fn ensure_cgroup1_roots(
    controllers: &Vec<Controller>,
    roots: &ControllerRoots,
    bootstrap: bool,
    attempted: bool,
) -> (decision: HierarchyDecision)
    ensures
        match decision {
            HierarchyDecision::Use(list) => all_mounted(controllers@, roots) && views(list@)
                == rooted(controllers@, roots),
            HierarchyDecision::Bootstrap => !all_mounted(controllers@, roots) && !attempted
                && bootstrap,
            HierarchyDecision::NotMounted => !all_mounted(controllers@, roots) && !attempted
                && !bootstrap,
            HierarchyDecision::MountFailed => !all_mounted(controllers@, roots) && attempted,
        },
{
    broadcast use {lemma_views_push, lemma_views_empty};

    let mut list: Vec<ControllerRoot> = Vec::new();
    let ghost wanted = rooted(controllers@, roots);
    let mut i: usize = 0;
    assert(views(list@) =~= wanted.take(0));
    while i < controllers.len()
        invariant
            i <= controllers@.len(),
            wanted == rooted(controllers@, roots),
            views(list@) == wanted.take(i as int),
            forall|k: int| 0 <= k < i ==> roots.of(#[trigger] controllers@[k]) is Some,
        decreases controllers.len() - i,
    {
        broadcast use {lemma_views_push, lemma_views_empty};

        let controller = controllers[i];
        match roots.get(controller) {
            Some(root) => {
                list.push(ControllerRoot { controller, root });
            },
            None => {
                assert(roots.of(controllers@[i as int]) is None);
                assert(!all_mounted(controllers@, roots));
                return if attempted {
                    HierarchyDecision::MountFailed
                } else if bootstrap {
                    HierarchyDecision::Bootstrap
                } else {
                    HierarchyDecision::NotMounted
                };
            },
        }
        i += 1;
        assert(wanted.take(i as int) =~= wanted.take(i - 1).push(wanted[i - 1]));
    }
    assert(wanted.take(i as int) =~= wanted);
    HierarchyDecision::Use(list)
}

/// The names of the first `count` controllers with commas between them.
pub open spec fn controller_list(controllers: Seq<Controller>, count: int) -> Seq<char>
    decreases count,
{
    if count <= 0 {
        Seq::empty()
    } else if count == 1 {
        controllers[0].text()
    } else {
        controller_list(controllers, count - 1) + ","@ + controllers[count - 1].text()
    }
}

/// The options of a hierarchy that is mounted for the controllers.
pub open spec fn hierarchy_options(edition: Edition, controllers: Seq<Controller>) -> Seq<char> {
    if controllers.len() == 0 {
        "none,name="@ + edition.product_name()
    } else {
        controller_list(controllers, controllers.len() as int)
    }
}

/// The place of a hierarchy that is mounted by the runtime.
pub open spec fn hierarchy_path(edition: Edition) -> Seq<char> {
    join("/sys/fs/cgroup"@, edition.product_name())
}

/// The steps that mount a hierarchy for the controllers.
pub open spec fn hierarchy_steps(
    edition: Edition,
    controllers: Seq<Controller>,
    filesystem: i64,
) -> Steps {
    base_steps(filesystem) + seq![
        Action::CreateDirAll(hierarchy_path(edition)),
        mount_step(
            Some("none"@),
            hierarchy_path(edition),
            Some("cgroup"@),
            INERT,
            Some(hierarchy_options(edition, controllers)),
        ),
    ]
}

/// The steps that mount a hierarchy for the controllers, where the base has
/// this type.
pub fn cgroup1_bootstrap(edition: Edition, controllers: &Vec<Controller>, filesystem: i64) -> (plan:
    Vec<Action<String>>)
    ensures
        views(plan@) == hierarchy_steps(edition, controllers@, filesystem),
{
    broadcast use {lemma_views_push, lemma_views_empty};

    let options = if controllers.len() == 0 {
        joined("none,name=", edition.product())
    } else {
        let mut text = controllers[0].name().to_owned();
        let mut i: usize = 1;
        while i < controllers.len()
            invariant
                1 <= i <= controllers@.len(),
                text@ == controller_list(controllers@, i as int),
            decreases controllers.len() - i,
        {
            text.append(",");
            text.append(controllers[i].name());
            i += 1;
        }
        text
    };
    let hierarchy = join_paths("/sys/fs/cgroup", edition.product());
    let mut plan = cgroup_base(filesystem);
    plan.push(create_dir_all(&hierarchy));
    plan.push(mount(Some("none"), &hierarchy, Some("cgroup"), INERT, Some(&options)));
    assert(views(plan@) =~= hierarchy_steps(edition, controllers@, filesystem));
    plan
}

// ---------------------------------------------------------------------------
// The group of a container
// ---------------------------------------------------------------------------
/// The control group of a container.
pub struct Cgroup {
    paths: Vec<String>,
    unified: bool,
}

/// Where the group of a container is in a hierarchy.
pub open spec fn group_path(edition: Edition, root: Seq<char>, name: Seq<char>) -> Seq<char> {
    join(join(root, edition.product_name()), name)
}

/// A limit as it is written; where none is set, the limit of an earlier run is
/// lifted by those editions that reuse groups.
pub open spec fn limit_steps(
    edition: Edition,
    path: Seq<char>,
    value: Option<Seq<char>>,
    unlimited: Seq<char>,
) -> Steps {
    match value {
        Some(value) => seq![Action::WriteFile { path, contents: value }],
        None => if edition == Edition::Kurumi {
            seq![Action::WriteExisting { path, contents: unlimited }]
        } else {
            Seq::empty()
        },
    }
}

/// A limit as it is written.
pub fn write_limit(edition: Edition, path: &str, value: Option<String>, unlimited: &str) -> (action:
    Option<Action<String>>)
    ensures
        (match action {
            Some(action) => seq![action@],
            None => Seq::empty(),
        }) == limit_steps(edition, path@, optional_view(value), unlimited@),
{
    match value {
        Some(value) => Some(write_file(path, &value)),
        None => if edition == Edition::Kurumi {
            Some(
                Action::WriteExisting { path: path.to_owned(), contents: unlimited.to_owned() },
            )
        } else {
            None
        },
    }
}

/// A number that may be missing, in decimal.
pub open spec fn optional_decimal(value: Option<u64>) -> Option<Seq<char>> {
    match value {
        Some(value) => Some(decimal(value as nat)),
        None => None,
    }
}

/// The period of a processor limit.
pub open spec fn cpu_period(resources: ResourceConfig) -> nat {
    match resources.cpu_period {
        Some(period) => period as nat,
        None => 100_000,
    }
}

/// The processor limit as the unified hierarchy takes it.
pub open spec fn unified_cpu(resources: ResourceConfig) -> Option<Seq<char>> {
    match resources.cpu_quota {
        Some(quota) => Some(decimal(quota as nat) + " "@ + decimal(cpu_period(resources))),
        None => None,
    }
}

/// The steps that make a group in the unified hierarchy.
pub open spec fn unified_steps(
    edition: Edition,
    path: Seq<char>,
    resources: ResourceConfig,
    workdir: Seq<char>,
) -> Steps {
    seq![Action::CreateDirAll(path)] + limit_steps(
        edition,
        join(path, "memory.max"@),
        optional_decimal(resources.memory_bytes),
        "max"@,
    ) + limit_steps(
        edition,
        join(path, "pids.max"@),
        optional_decimal(resources.pids),
        "max"@,
    ) + limit_steps(edition, join(path, "cpu.max"@), unified_cpu(resources), "max 100000"@) + seq![
        Action::CreateDirAll(workdir),
    ]
}

/// The steps that make a group in the hierarchy of one controller.
pub open spec fn controller_steps(
    edition: Edition,
    controller: Controller,
    path: Seq<char>,
    resources: ResourceConfig,
) -> Steps {
    seq![Action::CreateDirAll(path)] + (match controller {
        Controller::Memory => match resources.memory_bytes {
            Some(value) => seq![
                Action::WriteFile {
                    path: join(path, "memory.limit_in_bytes"@),
                    contents: decimal(value as nat),
                },
            ],
            None => Seq::empty(),
        },
        Controller::Cpu => match resources.cpu_quota {
            Some(quota) => seq![
                Action::WriteFile {
                    path: join(path, "cpu.cfs_quota_us"@),
                    contents: decimal(quota as nat),
                },
                Action::WriteFile {
                    path: join(path, "cpu.cfs_period_us"@),
                    contents: decimal(cpu_period(resources)),
                },
            ],
            None => Seq::empty(),
        },
        Controller::Pids => match resources.pids {
            Some(value) => seq![
                Action::WriteFile {
                    path: join(path, "pids.max"@),
                    contents: decimal(value as nat),
                },
            ],
            None => if edition == Edition::Kurumi {
                seq![Action::WriteFile { path: join(path, "pids.max"@), contents: "max"@ }]
            } else {
                Seq::empty()
            },
        },
    })
}

/// The steps that make a group in the first `count` hierarchies.
pub open spec fn group_steps(
    edition: Edition,
    roots: Seq<(Controller, Seq<char>)>,
    name: Seq<char>,
    resources: ResourceConfig,
    count: int,
) -> Steps
    decreases count,
{
    if count <= 0 {
        Seq::empty()
    } else {
        group_steps(edition, roots, name, resources, count - 1) + controller_steps(
            edition,
            roots[count - 1].0,
            group_path(edition, roots[count - 1].1, name),
            resources,
        )
    }
}

/// The groups of a container in these hierarchies.
pub open spec fn group_paths(
    edition: Edition,
    roots: Seq<(Controller, Seq<char>)>,
    name: Seq<char>,
) -> Seq<Seq<char>> {
    roots.map_values(|root: (Controller, Seq<char>)| group_path(edition, root.1, name))
}

/// Where the groups of a container are made.
pub enum Hierarchy {
    /// Nowhere: none is needed.
    Unneeded,
    /// In the unified hierarchy at this root.
    Unified(String),
    /// In the hierarchies of single controllers.
    Controllers(Vec<ControllerRoot>),
}

/// Whether limits ask for a control group.
pub open spec fn limited(resources: ResourceConfig) -> bool {
    group_needed(resources, false)
}

/// Whether a group is looked for at all. Without limits an edition may do
/// without one though the init system requires it.
pub open spec fn group_wanted(edition: Edition, resources: ResourceConfig, required: bool) -> bool {
    if edition == Edition::Kurumi {
        group_needed(resources, required)
    } else {
        limited(resources)
    }
}

/// Whether a group is looked for at all.
pub fn wants_group(edition: Edition, resources: &ResourceConfig, required: bool) -> (result: bool)
    ensures
        result == group_wanted(edition, *resources, required),
{
    if edition == Edition::Kurumi {
        cgroup_required(resources, required)
    } else {
        cgroup_required(resources, false)
    }
}

fn push_limit(
    plan: &mut Vec<Action<String>>,
    edition: Edition,
    path: &str,
    value: Option<String>,
    unlimited: &str,
)
    ensures
        views(final(plan)@) == views(old(plan)@) + limit_steps(
            edition,
            path@,
            optional_view(value),
            unlimited@,
        ),
{
    broadcast use {lemma_views_push, lemma_views_empty};

    let ghost steps = limit_steps(edition, path@, optional_view(value), unlimited@);
    match write_limit(edition, path, value, unlimited) {
        Some(action) => {
            assert(steps =~= seq![action@]);
            plan.push(action);
        },
        None => {
            assert(steps =~= Seq::<Action<Seq<char>>>::empty());
        },
    }
    assert(views(plan@) =~= views(old(plan)@) + steps);
}

fn optional_number(value: Option<u64>) -> (text: Option<String>)
    ensures
        optional_view(text) == optional_decimal(value),
{
    match value {
        Some(value) => Some(decimal_text(value)),
        None => None,
    }
}

fn push_controller(
    plan: &mut Vec<Action<String>>,
    edition: Edition,
    controller: Controller,
    path: &str,
    resources: &ResourceConfig,
)
    ensures
        views(final(plan)@) == views(old(plan)@) + controller_steps(
            edition,
            controller,
            path@,
            *resources,
        ),
{
    broadcast use {lemma_views_push, lemma_views_empty};

    plan.push(create_dir_all(path));
    match controller {
        Controller::Memory => {
            if let Some(value) = resources.memory_bytes {
                plan.push(
                    write_file(&join_paths(path, "memory.limit_in_bytes"), &decimal_text(value)),
                );
            }
        },
        Controller::Cpu => {
            if let Some(quota) = resources.cpu_quota {
                let period: u64 = resources.cpu_period.unwrap_or(100_000);
                plan.push(
                    write_file(&join_paths(path, "cpu.cfs_quota_us"), &decimal_text(quota)),
                );
                plan.push(
                    write_file(&join_paths(path, "cpu.cfs_period_us"), &decimal_text(period)),
                );
            }
        },
        Controller::Pids => {
            if let Some(value) = resources.pids {
                plan.push(write_file(&join_paths(path, "pids.max"), &decimal_text(value)));
            } else if edition == Edition::Kurumi {
                plan.push(write_file(&join_paths(path, "pids.max"), "max"));
            }
        },
    }
    assert(views(plan@) =~= views(old(plan)@) + controller_steps(
        edition,
        controller,
        path@,
        *resources,
    ));
}

impl Cgroup {
    /// The directories of the group.
    pub closed spec fn directories(&self) -> Seq<Seq<char>> {
        views(self.paths@)
    }

    /// Whether the group is in the unified hierarchy.
    pub closed spec fn is_unified(&self) -> bool {
        self.unified
    }

    /// The group of a container, and the steps that make it.
    pub fn create(
        edition: Edition,
        workdir: &str,
        name: &str,
        resources: &ResourceConfig,
        required: bool,
        hierarchy: &Hierarchy,
    ) -> (result: (Cgroup, Vec<Action<String>>))
        requires
            hierarchy is Unneeded == !group_wanted(edition, *resources, required),
        ensures
            match hierarchy {
                Hierarchy::Unneeded => result.0.directories() == Seq::<Seq<char>>::empty()
                    && !result.0.is_unified() && views(result.1@) == (if edition
                    == Edition::Gnosis && required {
                    seq![Action::CreateDirAll(workdir@)]
                } else {
                    Seq::empty()
                }),
                Hierarchy::Unified(root) => {
                    let path = group_path(edition, root@, name@);
                    &&& result.0.directories() == seq![path]
                    &&& result.0.is_unified()
                    &&& views(result.1@) == unified_steps(edition, path, *resources, workdir@)
                },
                Hierarchy::Controllers(roots) => {
                    let list = views(roots@);
                    &&& result.0.directories() == group_paths(edition, list, name@)
                    &&& !result.0.is_unified()
                    &&& views(result.1@) == group_steps(
                        edition,
                        list,
                        name@,
                        *resources,
                        list.len() as int,
                    ).push(Action::CreateDirAll(workdir@))
                },
            },
    {
        broadcast use {lemma_views_push, lemma_views_empty};

        let mut plan: Vec<Action<String>> = Vec::new();
        let mut paths: Vec<String> = Vec::new();
        match hierarchy {
            Hierarchy::Unneeded => {
                if edition == Edition::Gnosis && required {
                    plan.push(create_dir_all(workdir));
                    assert(views(plan@) =~= seq![Action::CreateDirAll(workdir@)]);
                }
                (Cgroup { paths, unified: false }, plan)
            },
            Hierarchy::Unified(root) => {
                let path = join_paths(&join_paths(root, edition.product()), name);
                plan.push(create_dir_all(&path));
                assert(views(plan@) =~= seq![Action::CreateDirAll(path@)]);
                push_limit(
                    &mut plan,
                    edition,
                    &join_paths(&path, "memory.max"),
                    optional_number(resources.memory_bytes),
                    "max",
                );
                push_limit(
                    &mut plan,
                    edition,
                    &join_paths(&path, "pids.max"),
                    optional_number(resources.pids),
                    "max",
                );
                let cpu = match resources.cpu_quota {
                    Some(quota) => {
                        let period: u64 = resources.cpu_period.unwrap_or(100_000);
                        Some(joined3(&decimal_text(quota), " ", &decimal_text(period)))
                    },
                    None => None,
                };
                push_limit(&mut plan, edition, &join_paths(&path, "cpu.max"), cpu, "max 100000");
                let ghost before = views(plan@);
                plan.push(create_dir_all(workdir));
                assert(views(plan@) =~= before + seq![Action::CreateDirAll(workdir@)]);
                paths.push(path);
                let cgroup = Cgroup { paths, unified: true };
                assert(cgroup.directories() =~= seq![group_path(edition, root@, name@)]);
                (cgroup, plan)
            },
            Hierarchy::Controllers(roots) => {
                let ghost list = views(roots@);
                let mut i: usize = 0;
                assert(views(plan@) =~= group_steps(edition, list, name@, *resources, 0));
                assert(views(paths@) =~= group_paths(edition, list, name@).take(0));
                while i < roots.len()
                    invariant
                        i <= roots@.len(),
                        list == views(roots@),
                        views(plan@) == group_steps(edition, list, name@, *resources, i as int),
                        views(paths@) == group_paths(edition, list, name@).take(i as int),
                    decreases roots.len() - i,
                {
                    broadcast use {lemma_views_push, lemma_views_empty};

                    let root = &roots[i];
                    assert(list[i as int] == root@);
                    let path = join_paths(&join_paths(&root.root, edition.product()), name);
                    push_controller(&mut plan, edition, root.controller, &path, resources);
                    paths.push(path);
                    i += 1;
                    let ghost wanted = group_paths(edition, list, name@);
                    assert(wanted.take(i as int) =~= wanted.take(i - 1).push(wanted[i - 1]));
                }
                plan.push(create_dir_all(workdir));
                let cgroup = Cgroup { paths, unified: false };
                assert(cgroup.directories() =~= group_paths(edition, list, name@));
                (cgroup, plan)
            },
        }
    }

    /// The steps that put a process into the group.
    pub fn attach(&self, pid: i32) -> (plan: Vec<Action<String>>)
        ensures
            views(plan@) == attach_steps(self.directories(), pid as int),
            views(plan@) == self.directories().map_values(
                |path: Seq<char>|
                    Action::WriteFile {
                        path: join(path, "cgroup.procs"@),
                        contents: signed_decimal(pid as int),
                    },
            ),
    {
        broadcast use {lemma_views_push, lemma_views_empty};

        let ghost wanted = self.directories().map_values(
            |path: Seq<char>|
                Action::WriteFile {
                    path: join(path, "cgroup.procs"@),
                    contents: signed_decimal(pid as int),
                },
        );
        let number = signed_text(pid);
        let mut plan: Vec<Action<String>> = Vec::new();
        let mut i: usize = 0;
        assert(views(plan@) =~= wanted.take(0));
        while i < self.paths.len()
            invariant
                i <= self.paths@.len(),
                number@ == signed_decimal(pid as int),
                wanted == self.directories().map_values(
                    |path: Seq<char>|
                        Action::WriteFile {
                            path: join(path, "cgroup.procs"@),
                            contents: signed_decimal(pid as int),
                        },
                ),
                views(plan@) == wanted.take(i as int),
            decreases self.paths.len() - i,
        {
            broadcast use {lemma_views_push, lemma_views_empty};

            plan.push(write_file(&join_paths(&self.paths[i], "cgroup.procs"), &number));
            i += 1;
            assert(wanted.take(i as int) =~= wanted.take(i - 1).push(wanted[i - 1]));
        }
        assert(wanted.take(i as int) =~= wanted);
        plan
    }

    /// The directories that are to be removed, all of them whatever comes of
    /// each. The group is gone afterwards.
    pub fn remove(&mut self) -> (paths: Vec<String>)
        ensures
            views(paths@) == old(self).directories(),
            final(self).directories() == Seq::<Seq<char>>::empty(),
            final(self).is_unified() == old(self).is_unified(),
    {
        broadcast use lemma_views_empty;

        let mut paths: Vec<String> = Vec::new();
        core::mem::swap(&mut paths, &mut self.paths);
        paths
    }

    /// Whether the group is in the unified hierarchy.
    pub fn unified(&self) -> (result: bool)
        ensures
            result == self.is_unified(),
    {
        self.unified
    }
}

// ---------------------------------------------------------------------------
// What holds of every group
// ---------------------------------------------------------------------------
/// The groups of a container are below its hierarchy, under the name of the
/// edition and its own.
pub proof fn law_groups_are_named_after_containers(
    edition: Edition,
    root: Seq<char>,
    name: Seq<char>,
)
    requires
        root.len() > 0,
        root.last() != '/',
        !absolute(name),
    ensures
        group_path(edition, root, name) == root + (if edition == Edition::Gnosis {
            "/gnosis/"@
        } else {
            "/kurumi-containerd/"@
        }) + name,
{
    reveal_strlit("gnosis");
    reveal_strlit("/gnosis/");
    reveal_strlit("kurumi-containerd");
    reveal_strlit("/kurumi-containerd/");
    assert(group_path(edition, root, name) =~= root + (if edition == Edition::Gnosis {
        "/gnosis/"@
    } else {
        "/kurumi-containerd/"@
    }) + name);
}

/// The value of a processor limit: how much of how long a time.
pub open spec fn share_of_time(quota: u64, period: Option<u64>) -> Seq<char> {
    decimal(quota as nat) + " "@ + (match period {
        Some(period) => decimal(period as nat),
        None => "100000"@,
    })
}

proof fn lemma_default_period()
    ensures
        decimal(100_000) == "100000"@,
{
    reveal_with_fuel(decimal, 6);
    reveal_strlit("100000");
    assert(decimal(100_000) =~= "100000"@);
}

proof fn lemma_limit_files(path: Seq<char>)
    requires
        path.len() > 0,
        path.last() != '/',
    ensures
        join(path, "memory.max"@) == path + "/memory.max"@,
        join(path, "pids.max"@) == path + "/pids.max"@,
        join(path, "cpu.max"@) == path + "/cpu.max"@,
        join(path, "memory.limit_in_bytes"@) == path + "/memory.limit_in_bytes"@,
        join(path, "cpu.cfs_quota_us"@) == path + "/cpu.cfs_quota_us"@,
        join(path, "cpu.cfs_period_us"@) == path + "/cpu.cfs_period_us"@,
        join(path, "cgroup.procs"@) == path + "/cgroup.procs"@,
{
    reveal_strlit("memory.max");
    reveal_strlit("pids.max");
    reveal_strlit("cpu.max");
    reveal_strlit("memory.limit_in_bytes");
    reveal_strlit("cpu.cfs_quota_us");
    reveal_strlit("cpu.cfs_period_us");
    reveal_strlit("cgroup.procs");
    reveal_strlit("/memory.max");
    reveal_strlit("/pids.max");
    reveal_strlit("/cpu.max");
    reveal_strlit("/memory.limit_in_bytes");
    reveal_strlit("/cpu.cfs_quota_us");
    reveal_strlit("/cpu.cfs_period_us");
    reveal_strlit("/cgroup.procs");
    assert(join(path, "memory.max"@) =~= path + "/memory.max"@);
    assert(join(path, "pids.max"@) =~= path + "/pids.max"@);
    assert(join(path, "cpu.max"@) =~= path + "/cpu.max"@);
    assert(join(path, "memory.limit_in_bytes"@) =~= path + "/memory.limit_in_bytes"@);
    assert(join(path, "cpu.cfs_quota_us"@) =~= path + "/cpu.cfs_quota_us"@);
    assert(join(path, "cpu.cfs_period_us"@) =~= path + "/cpu.cfs_period_us"@);
    assert(join(path, "cgroup.procs"@) =~= path + "/cgroup.procs"@);
}

/// Whether a step sets a limit in a file of a group.
pub open spec fn sets_limit(step: Action<Seq<char>>, file: Seq<char>, value: Seq<char>) -> bool {
    step == (Action::WriteFile { path: file, contents: value })
}

/// Whether a step lifts a limit in a file of a group.
pub open spec fn lifts_limit(step: Action<Seq<char>>, file: Seq<char>, value: Seq<char>) -> bool {
    step == (Action::WriteExisting { path: file, contents: value })
}

proof fn lemma_unified_layout(
    edition: Edition,
    path: Seq<char>,
    resources: ResourceConfig,
    workdir: Seq<char>,
) -> (at: (int, int, int))
    ensures
        ({
            let steps = unified_steps(edition, path, resources, workdir);
            let memory = limit_steps(
                edition,
                join(path, "memory.max"@),
                optional_decimal(resources.memory_bytes),
                "max"@,
            );
            let pids = limit_steps(
                edition,
                join(path, "pids.max"@),
                optional_decimal(resources.pids),
                "max"@,
            );
            let cpu = limit_steps(
                edition,
                join(path, "cpu.max"@),
                unified_cpu(resources),
                "max 100000"@,
            );
            &&& at.0 == 1 + memory.len()
            &&& at.1 == at.0 + pids.len()
            &&& at.2 == at.1 + cpu.len()
            &&& steps.len() == at.2 + 1
            &&& steps[0] == Action::CreateDirAll(path)
            &&& steps[at.2] == Action::CreateDirAll(workdir)
            &&& memory.len() > 0 ==> steps[1] == memory[0]
            &&& pids.len() > 0 ==> steps[at.0] == pids[0]
            &&& cpu.len() > 0 ==> steps[at.1] == cpu[0]
            &&& memory.len() <= 1
            &&& pids.len() <= 1
            &&& cpu.len() <= 1
        }),
{
    let memory = limit_steps(
        edition,
        join(path, "memory.max"@),
        optional_decimal(resources.memory_bytes),
        "max"@,
    );
    let pids = limit_steps(
        edition,
        join(path, "pids.max"@),
        optional_decimal(resources.pids),
        "max"@,
    );
    let cpu = limit_steps(edition, join(path, "cpu.max"@), unified_cpu(resources), "max 100000"@);
    let a = 1 + memory.len() as int;
    let b = a + pids.len();
    (a, b, b + cpu.len())
}

/// In the unified hierarchy every configured limit is written as it is
/// configured into the file of that limit, in the group of the container and
/// after the group is made.
pub proof fn law_configured_limits_are_written(
    edition: Edition,
    path: Seq<char>,
    resources: ResourceConfig,
    workdir: Seq<char>,
)
    requires
        path.len() > 0,
        path.last() != '/',
    ensures
        ({
            let steps = unified_steps(edition, path, resources, workdir);
            &&& steps[0] == Action::CreateDirAll(path)
            &&& steps.last() == Action::CreateDirAll(workdir)
            &&& resources.memory_bytes matches Some(limit) ==> exists|i: int|
                0 < i < steps.len() && sets_limit(
                    #[trigger] steps[i],
                    path + "/memory.max"@,
                    decimal(limit as nat),
                )
            &&& resources.pids matches Some(limit) ==> exists|i: int|
                0 < i < steps.len() && sets_limit(
                    #[trigger] steps[i],
                    path + "/pids.max"@,
                    decimal(limit as nat),
                )
            &&& resources.cpu_quota matches Some(quota) ==> exists|i: int|
                0 < i < steps.len() && sets_limit(
                    #[trigger] steps[i],
                    path + "/cpu.max"@,
                    share_of_time(quota, resources.cpu_period),
                )
        }),
{
    let at = lemma_unified_layout(edition, path, resources, workdir);
    let steps = unified_steps(edition, path, resources, workdir);
    lemma_limit_files(path);
    lemma_default_period();
    if resources.memory_bytes is Some {
        assert(sets_limit(
            steps[1],
            path + "/memory.max"@,
            decimal(resources.memory_bytes->0 as nat),
        ));
    }
    if resources.pids is Some {
        assert(sets_limit(steps[at.0], path + "/pids.max"@, decimal(resources.pids->0 as nat)));
    }
    if resources.cpu_quota is Some {
        assert(sets_limit(
            steps[at.1],
            path + "/cpu.max"@,
            share_of_time(resources.cpu_quota->0, resources.cpu_period),
        ));
    }
}

/// In the unified hierarchy a limit is written or lifted only by the
/// configuration: whatever is written is a limit that is configured, and a
/// limit is lifted only where none is. The newer edition lifts each of those,
/// so that no limit of an earlier run stays.
pub proof fn law_limits_are_lifted_only_where_none_is_set(
    edition: Edition,
    path: Seq<char>,
    resources: ResourceConfig,
    workdir: Seq<char>,
)
    requires
        path.len() > 0,
        path.last() != '/',
    ensures
        ({
            let steps = unified_steps(edition, path, resources, workdir);
            let memory = path + "/memory.max"@;
            let pids = path + "/pids.max"@;
            let cpu = path + "/cpu.max"@;
            &&& forall|i: int|
                0 <= i < steps.len() ==> match #[trigger] steps[i] {
                    Action::WriteFile { path: file, contents } => {
                        ||| file == memory && resources.memory_bytes is Some && contents == decimal(
                            resources.memory_bytes->0 as nat,
                        )
                        ||| file == pids && resources.pids is Some && contents == decimal(
                            resources.pids->0 as nat,
                        )
                        ||| file == cpu && resources.cpu_quota is Some && contents
                            == share_of_time(resources.cpu_quota->0, resources.cpu_period)
                    },
                    Action::WriteExisting { path: file, contents } => {
                        &&& edition == Edition::Kurumi
                        &&& {
                            ||| file == memory && resources.memory_bytes is None && contents
                                == "max"@
                            ||| file == pids && resources.pids is None && contents == "max"@
                            ||| file == cpu && resources.cpu_quota is None && contents
                                == "max 100000"@
                        }
                    },
                    Action::CreateDirAll(directory) => directory == path || directory == workdir,
                    _ => false,
                }
            &&& edition == Edition::Kurumi && resources.memory_bytes is None ==> exists|i: int|
                0 < i < steps.len() && lifts_limit(#[trigger] steps[i], memory, "max"@)
            &&& edition == Edition::Kurumi && resources.pids is None ==> exists|i: int|
                0 < i < steps.len() && lifts_limit(#[trigger] steps[i], pids, "max"@)
            &&& edition == Edition::Kurumi && resources.cpu_quota is None ==> exists|i: int|
                0 < i < steps.len() && lifts_limit(#[trigger] steps[i], cpu, "max 100000"@)
        }),
{
    let at = lemma_unified_layout(edition, path, resources, workdir);
    let steps = unified_steps(edition, path, resources, workdir);
    lemma_limit_files(path);
    lemma_default_period();
    if edition == Edition::Kurumi {
        if resources.memory_bytes is None {
            assert(lifts_limit(steps[1], path + "/memory.max"@, "max"@));
        }
        if resources.pids is None {
            assert(lifts_limit(steps[at.0], path + "/pids.max"@, "max"@));
        }
        if resources.cpu_quota is None {
            assert(lifts_limit(steps[at.1], path + "/cpu.max"@, "max 100000"@));
        }
    }
}

/// Where the steps of one hierarchy stand among those of all.
proof fn lemma_group_steps(
    edition: Edition,
    roots: Seq<(Controller, Seq<char>)>,
    name: Seq<char>,
    resources: ResourceConfig,
    count: int,
    i: int,
) -> (at: int)
    requires
        0 <= i < count <= roots.len(),
    ensures
        ({
            let all = group_steps(edition, roots, name, resources, count);
            let own = controller_steps(
                edition,
                roots[i].0,
                group_path(edition, roots[i].1, name),
                resources,
            );
            &&& 0 <= at
            &&& at + own.len() <= all.len()
            &&& forall|n: int| 0 <= n < own.len() ==> all[at + n] == #[trigger] own[n]
        }),
    decreases count,
{
    let before = group_steps(edition, roots, name, resources, count - 1);
    let last = controller_steps(
        edition,
        roots[count - 1].0,
        group_path(edition, roots[count - 1].1, name),
        resources,
    );
    if i == count - 1 {
        before.len() as int
    } else {
        let at = lemma_group_steps(edition, roots, name, resources, count - 1, i);
        let own = controller_steps(
            edition,
            roots[i].0,
            group_path(edition, roots[i].1, name),
            resources,
        );
        assert forall|n: int| 0 <= n < own.len() implies (before + last)[at + n]
            == #[trigger] own[n] by {
            assert(before[at + n] == own[n]);
        }
        at
    }
}

/// Whether one step is taken before another.
pub open spec fn made_before(steps: Steps, first: Action<Seq<char>>, second: Action<Seq<char>>) -> bool {
    exists|i: int, j: int|
        #![trigger steps[i], steps[j]]
        0 <= i < j < steps.len() && steps[i] == first && steps[j] == second
}

/// In hierarchies of single controllers the group is made in each, and the
/// configured limit of that controller is written into it as it is configured.
pub proof fn law_controllers_have_their_limits(
    edition: Edition,
    roots: Seq<(Controller, Seq<char>)>,
    name: Seq<char>,
    resources: ResourceConfig,
    i: int,
)
    requires
        0 <= i < roots.len(),
        group_path(edition, roots[i].1, name).len() > 0,
        group_path(edition, roots[i].1, name).last() != '/',
    ensures
        ({
            let steps = group_steps(edition, roots, name, resources, roots.len() as int);
            let group = group_path(edition, roots[i].1, name);
            let made = Action::CreateDirAll(group);
            &&& steps.contains(made)
            &&& match roots[i].0 {
                Controller::Memory => resources.memory_bytes matches Some(limit) ==> made_before(
                    steps,
                    made,
                    Action::WriteFile {
                        path: group + "/memory.limit_in_bytes"@,
                        contents: decimal(limit as nat),
                    },
                ),
                Controller::Cpu => resources.cpu_quota matches Some(quota) ==> made_before(
                    steps,
                    made,
                    Action::WriteFile {
                        path: group + "/cpu.cfs_quota_us"@,
                        contents: decimal(quota as nat),
                    },
                ) && made_before(
                    steps,
                    made,
                    Action::WriteFile {
                        path: group + "/cpu.cfs_period_us"@,
                        contents: match resources.cpu_period {
                            Some(period) => decimal(period as nat),
                            None => "100000"@,
                        },
                    },
                ),
                Controller::Pids => match resources.pids {
                    Some(limit) => made_before(
                        steps,
                        made,
                        Action::WriteFile {
                            path: group + "/pids.max"@,
                            contents: decimal(limit as nat),
                        },
                    ),
                    None => edition == Edition::Kurumi ==> made_before(
                        steps,
                        made,
                        Action::WriteFile { path: group + "/pids.max"@, contents: "max"@ },
                    ),
                },
            }
        }),
{
    let steps = group_steps(edition, roots, name, resources, roots.len() as int);
    let group = group_path(edition, roots[i].1, name);
    let own = controller_steps(edition, roots[i].0, group, resources);
    let at = lemma_group_steps(edition, roots, name, resources, roots.len() as int, i);
    lemma_limit_files(group);
    lemma_default_period();
    assert(own[0] == Action::CreateDirAll(group));
    assert(steps[at + 0] == own[0]);
    if own.len() > 1 {
        assert(steps[at + 1] == own[1]);
    }
    if own.len() > 2 {
        assert(steps[at + 2] == own[2]);
    }
}

/// A controller is asked for exactly where its limit is configured; an init
/// system that requires a group gets one without limits too.
pub proof fn law_controllers_follow_the_limits(resources: ResourceConfig, required: bool)
    ensures
        ({
            let list = needed_controllers(resources, required);
            &&& list.contains(Controller::Memory) <==> resources.memory_bytes is Some
            &&& list.contains(Controller::Cpu) <==> resources.cpu_quota is Some
            &&& list.contains(Controller::Pids) <==> resources.pids is Some || (required
                && resources.memory_bytes is None && resources.cpu_quota is None)
            &&& list.no_duplicates()
        }),
{
    let list = needed_controllers(resources, required);
    let memory = only_if(resources.memory_bytes is Some, Controller::Memory);
    let cpu = only_if(resources.cpu_quota is Some, Controller::Cpu);
    let pids = only_if(resources.pids is Some, Controller::Pids);
    let limits = memory + cpu + pids;
    if resources.memory_bytes is Some {
        assert(limits[0] == Controller::Memory);
    }
    if resources.cpu_quota is Some {
        assert(limits[memory.len() as int] == Controller::Cpu);
    }
    if resources.pids is Some {
        assert(limits[(memory.len() + cpu.len()) as int] == Controller::Pids);
    }
    if required && limits.len() == 0 {
        assert(list[0] == Controller::Pids);
    }
}

/// A group is looked for wherever a limit is configured, by every edition.
pub proof fn law_limits_need_a_group(edition: Edition, resources: ResourceConfig, required: bool)
    ensures
        resources.memory_bytes is Some ==> group_wanted(edition, resources, required),
        resources.cpu_quota is Some ==> group_wanted(edition, resources, required),
        resources.pids is Some ==> group_wanted(edition, resources, required),
        resources.memory_bytes is None && resources.cpu_quota is None && resources.pids is None ==> (
        group_wanted(edition, resources, required) <==> required && edition == Edition::Kurumi),
{
}

/// The unified hierarchy is the first mount of its kind.
pub proof fn law_unified_root_is_the_first(entries: Seq<MountView>, i: int)
    requires
        0 <= i <= entries.len(),
    ensures
        match unified_root_from(entries, i) {
            Some(root) => exists|k: int|
                i <= k < entries.len() && (#[trigger] entries[k]).fs_type == "cgroup2"@
                    && entries[k].mount_point == root && forall|n: int|
                    i <= n < k ==> (#[trigger] entries[n]).fs_type != "cgroup2"@,
            None => forall|k: int|
                i <= k < entries.len() ==> (#[trigger] entries[k]).fs_type != "cgroup2"@,
        },
    decreases entries.len() - i,
{
    if i < entries.len() && entries[i].fs_type != "cgroup2"@ {
        law_unified_root_is_the_first(entries, i + 1);
    }
}

/// Whether a mount is a hierarchy with this controller.
pub open spec fn carries_controller(entry: MountView, name: Seq<char>) -> bool {
    entry.fs_type == "cgroup"@ && entry.options.contains(name)
}

/// The hierarchy of a controller is the first mount with it.
pub proof fn law_controller_root_is_the_first(
    entries: Seq<MountView>,
    controller: Controller,
    i: int,
)
    requires
        0 <= i <= entries.len(),
    ensures
        ({
            let name = match controller {
                Controller::Memory => "memory"@,
                Controller::Cpu => "cpu"@,
                Controller::Pids => "pids"@,
            };
            match root_from(entries, controller, i) {
                Some(root) => exists|k: int|
                    i <= k < entries.len() && carries_controller(#[trigger] entries[k], name)
                        && entries[k].mount_point == root && forall|n: int|
                        i <= n < k ==> !carries_controller(#[trigger] entries[n], name),
                None => forall|k: int|
                    i <= k < entries.len() ==> !carries_controller(#[trigger] entries[k], name),
            }
        }),
    decreases entries.len() - i,
{
    if i < entries.len() {
        let name = controller.text();
        let entry = entries[i];
        if entry.fs_type == "cgroup"@ && has_option(entry.options, name) {
            let n = choose|n: int| 0 <= n < entry.options.len() && entry.options[n] == name;
            assert(entry.options.contains(name));
        } else {
            if entry.options.contains(name) {
                let n = choose|n: int| 0 <= n < entry.options.len() && entry.options[n] == name;
                assert(entry.options[n] == name);
            }
            law_controller_root_is_the_first(entries, controller, i + 1);
        }
    }
}

/// A process is put into every group of the container, and nothing else is
/// written.
pub open spec fn attach_steps(directories: Seq<Seq<char>>, pid: int) -> Steps {
    directories.map_values(
        |path: Seq<char>|
            Action::WriteFile {
                path: join(path, "cgroup.procs"@),
                contents: signed_decimal(pid),
            },
    )
}

/// A process that is put into the groups is written to the list of processes
/// of each of them.
pub proof fn law_processes_join_every_group(directories: Seq<Seq<char>>, pid: int, i: int)
    requires
        0 <= i < directories.len(),
        directories[i].len() > 0,
        directories[i].last() != '/',
    ensures
        attach_steps(directories, pid).len() == directories.len(),
        attach_steps(directories, pid)[i] == (Action::WriteFile {
            path: directories[i] + "/cgroup.procs"@,
            contents: if pid < 0 {
                "-"@ + decimal((-pid) as nat)
            } else {
                decimal(pid as nat)
            },
        }),
{
    lemma_limit_files(directories[i]);
}

/// What came of the removal of a directory.
#[derive(Clone, Copy, Debug, PartialEq, Eq, Structural)]
pub enum RemoveOutcome {
    Removed,
    /// It was gone already.
    Missing,
    Failed,
}

/// The first failure from position `i` on.
pub open spec fn failure_from(outcomes: Seq<RemoveOutcome>, i: int) -> Option<usize>
    decreases outcomes.len() - i,
{
    if i < 0 || i >= outcomes.len() {
        None
    } else if outcomes[i] == RemoveOutcome::Failed {
        Some(i as usize)
    } else {
        failure_from(outcomes, i + 1)
    }
}

/// The failure that is reported is the first one, and there is none only where
/// nothing failed.
pub proof fn law_first_failure_is_reported(outcomes: Seq<RemoveOutcome>, i: int)
    requires
        0 <= i <= outcomes.len(),
        outcomes.len() <= usize::MAX,
    ensures
        match failure_from(outcomes, i) {
            Some(at) => i <= at < outcomes.len() && outcomes[at as int] == RemoveOutcome::Failed
                && forall|k: int|
                i <= k < at ==> #[trigger] outcomes[k] != RemoveOutcome::Failed,
            None => forall|k: int|
                i <= k < outcomes.len() ==> #[trigger] outcomes[k] != RemoveOutcome::Failed,
        },
    decreases outcomes.len() - i,
{
    if i < outcomes.len() && outcomes[i] != RemoveOutcome::Failed {
        law_first_failure_is_reported(outcomes, i + 1);
    }
}

/// The failure that is reported after all removals: the first.
pub fn first_failure(outcomes: &Vec<RemoveOutcome>) -> (failure: Option<usize>)
    ensures
        failure == failure_from(outcomes@, 0),
{
    let mut i: usize = 0;
    while i < outcomes.len()
        invariant
            i <= outcomes@.len(),
            failure_from(outcomes@, 0) == failure_from(outcomes@, i as int),
        decreases outcomes.len() - i,
    {
        if outcomes[i] == RemoveOutcome::Failed {
            return Some(i);
        }
        i += 1;
    }
    None
}

proof fn lemma_hyphen(fields: Seq<Seq<char>>, at: int, i: int)
    requires
        0 <= i <= at < fields.len(),
        fields[at] == "-"@,
        forall|k: int| i <= k < at ==> #[trigger] fields[k] != "-"@,
    ensures
        hyphen_from(fields, i) == at,
    decreases at - i,
{
    if i < at {
        lemma_hyphen(fields, at, i + 1);
    }
}

/// A mount is described by the fields of its line: its place is the fifth, and
/// the type, the source and the options follow a lone hyphen, however many
/// fields stand before it.
pub proof fn law_mounts_are_read_from_their_lines(
    line: Seq<char>,
    front: Seq<Seq<char>>,
    fs_type: Seq<char>,
    source: Seq<char>,
    options: Seq<char>,
)
    requires
        front.len() >= 5,
        forall|i: int| 0 <= i < front.len() ==> #[trigger] front[i] != "-"@,
        words(line) == front + seq!["-"@, fs_type, source, options],
    ensures
        mount_line(line) == Some(
            MountView { fs_type, mount_point: front[4], options: split_on(options, ',') },
        ),
{
    let fields = words(line);
    let at = front.len() as int;
    assert(fields[at] == "-"@ && fields[at + 1] == fs_type && fields[at + 3] == options);
    assert forall|k: int| 0 <= k < at implies #[trigger] fields[k] != "-"@ by {
        assert(fields[k] == front[k]);
    }
    lemma_hyphen(fields, at, 0);
    assert(fields[4] == front[4]);
}

/// The mounts of two lists of lines are those of the first and then those of
/// the second; a line that describes none adds none.
pub proof fn law_mounts_add_up(a: Seq<Seq<char>>, b: Seq<Seq<char>>, line: Seq<char>)
    ensures
        mount_lines(a + b) == mount_lines(a) + mount_lines(b),
        mount_line(line) is Some ==> mount_lines(seq![line]) == seq![mount_line(line)->0],
        mount_line(line) is None ==> mount_lines(seq![line]).len() == 0,
        words(line).len() < 5 ==> mount_line(line) is None,
    decreases b.len(),
{
    let none = Seq::<Seq<char>>::empty();
    assert(seq![line].drop_last() =~= none);
    assert(mount_lines(none) =~= Seq::<MountView>::empty());
    if mount_line(line) is Some {
        assert(mount_lines(seq![line]) =~= seq![mount_line(line)->0]);
    }
    if b.len() == 0 {
        assert(a + b =~= a);
        assert(mount_lines(a) + mount_lines(b) =~= mount_lines(a));
    } else {
        law_mounts_add_up(a, b.drop_last(), line);
        assert((a + b).drop_last() =~= a + b.drop_last());
        assert((a + b).last() == b.last());
        assert(mount_lines(a + b) =~= mount_lines(a) + mount_lines(b));
    }
}

/// A hierarchy of the runtime is mounted in its own directory, over a base in
/// memory that is mounted only where there is none yet, and with exactly the
/// controllers that are asked for.
pub proof fn law_hierarchies_are_mounted_for_their_controllers(
    edition: Edition,
    controllers: Seq<Controller>,
    filesystem: i64,
)
    ensures
        ({
            let steps = hierarchy_steps(edition, controllers, filesystem);
            let place = if edition == Edition::Gnosis {
                "/sys/fs/cgroup/gnosis"@
            } else {
                "/sys/fs/cgroup/kurumi-containerd"@
            };
            &&& steps[steps.len() - 2] == Action::CreateDirAll(place)
            &&& steps.last() == Action::Mount(
                Mount {
                    source: Some("none"@),
                    target: place,
                    filesystem: Some("cgroup"@),
                    flags: 0xe,
                    data: Some(hierarchy_options(edition, controllers)),
                },
            )
            &&& filesystem == 0x0102_1994 ==> steps.len() == 2
            &&& filesystem != 0x0102_1994 ==> steps.len() == 3 && steps[0] == Action::Mount(
                Mount {
                    source: Some("none"@),
                    target: "/sys/fs/cgroup"@,
                    filesystem: Some("tmpfs"@),
                    flags: 0xe,
                    data: Some("mode=755,size=16M"@),
                },
            )
        }),
        controllers.len() == 0 ==> hierarchy_options(edition, controllers) == if edition
            == Edition::Gnosis {
            "none,name=gnosis"@
        } else {
            "none,name=kurumi-containerd"@
        },
        controllers.len() > 0 ==> split_on(hierarchy_options(edition, controllers), ',').len()
            == controllers.len() && forall|i: int|
            0 <= i < controllers.len() ==> #[trigger] split_on(
                hierarchy_options(edition, controllers),
                ',',
            )[i] == match controllers[i] {
                Controller::Memory => "memory"@,
                Controller::Cpu => "cpu"@,
                Controller::Pids => "pids"@,
            },
{
    assert(0x2u64 | 0x4u64 | 0x8u64 == 0xe) by (bit_vector);
    reveal_strlit("/sys/fs/cgroup");
    reveal_strlit("gnosis");
    reveal_strlit("kurumi-containerd");
    reveal_strlit("/sys/fs/cgroup/gnosis");
    reveal_strlit("/sys/fs/cgroup/kurumi-containerd");
    reveal_strlit("none,name=");
    reveal_strlit("none,name=gnosis");
    reveal_strlit("none,name=kurumi-containerd");
    assert(join("/sys/fs/cgroup"@, "gnosis"@) =~= "/sys/fs/cgroup/gnosis"@);
    assert(join("/sys/fs/cgroup"@, "kurumi-containerd"@) =~= "/sys/fs/cgroup/kurumi-containerd"@);
    assert("none,name="@ + "gnosis"@ =~= "none,name=gnosis"@);
    assert("none,name="@ + "kurumi-containerd"@ =~= "none,name=kurumi-containerd"@);
    if controllers.len() > 0 {
        lemma_controller_list(controllers, controllers.len() as int);
    }
}

proof fn lemma_controller_list(controllers: Seq<Controller>, count: int)
    requires
        0 < count <= controllers.len(),
    ensures
        split_on(controller_list(controllers, count), ',') == Seq::new(
            count as nat,
            |i: int| controllers[i].text(),
        ),
    decreases count,
{
    let list = controller_list(controllers, count);
    let wanted = Seq::new(count as nat, |i: int| controllers[i].text());
    let name = controllers[count - 1].text();
    reveal_strlit("memory");
    reveal_strlit("cpu");
    reveal_strlit("pids");
    reveal_strlit(",");
    let none = Seq::<char>::empty();
    lemma_split_append(none, name, ',');
    assert(none + name =~= name);
    assert(split_on(none, ',') == seq![none]);
    assert(split_on(name, ',') =~= seq![name]);
    if count > 1 {
        lemma_controller_list(controllers, count - 1);
        let before = controller_list(controllers, count - 1);
        assert(","@ =~= seq![',']);
        lemma_split_join(before, name, ',');
        assert(split_on(list, ',') =~= wanted);
    } else {
        assert(split_on(list, ',') =~= wanted);
    }
}

/// The groups of a container are one in each of its hierarchies, each under
/// the root of its own controller.
pub proof fn law_every_controller_has_its_group(
    edition: Edition,
    controllers: Seq<Controller>,
    roots: &ControllerRoots,
    name: Seq<char>,
    i: int,
)
    requires
        all_mounted(controllers, roots),
        0 <= i < controllers.len(),
    ensures
        ({
            let paths = group_paths(edition, rooted(controllers, roots), name);
            let root = match controllers[i] {
                Controller::Memory => optional_view(roots.memory),
                Controller::Cpu => optional_view(roots.cpu),
                Controller::Pids => optional_view(roots.pids),
            };
            &&& root is Some
            &&& paths.len() == controllers.len()
            &&& paths[i] == group_path(edition, root->0, name)
            &&& rooted(controllers, roots)[i].0 == controllers[i]
        }),
{
    assert(roots.of(controllers[i]) is Some);
}

} // verus!
