//! The installation of a root from an archive: what is asked for, and whether
//! it may be done.
use vstd::prelude::*;

use crate::config::model::Config;
use crate::runtime::layout::Runtime;
use crate::text::{
    chars_of, decimal, digit_value, law_decimal_round_trip, lemma_decimal_digits, parse_decimal,
    parse_number, same, text_between,
};

verus! {

/// Why a root is not installed.
#[derive(Clone, Copy, Debug, PartialEq, Eq, Structural)]
pub enum InstallError {
    /// The container is running.
    Running,
    /// Neither a directory nor an image is configured.
    NoTarget,
    /// An image needs a size.
    SizeMissing,
    /// A directory takes none.
    SizeGiven,
    /// The target is there, and is not to be replaced.
    TargetExists,
}

// ---------------------------------------------------------------------------
// The size of an image
// ---------------------------------------------------------------------------
/// How many digits a text begins with.
pub open spec fn leading_digits(text: Seq<char>) -> nat
    decreases text.len(),
{
    if text.len() > 0 && digit_value(text[0]) < 10 {
        1 + leading_digits(text.skip(1))
    } else {
        0
    }
}

/// How many bytes a unit stands for.
pub open spec fn size_unit(unit: Seq<char>) -> Option<nat> {
    if unit == ""@ {
        Some(1)
    } else if unit == "K"@ || unit == "KiB"@ {
        Some(0x400)
    } else if unit == "M"@ || unit == "MiB"@ {
        Some(0x10_0000)
    } else if unit == "G"@ || unit == "GiB"@ {
        Some(0x4000_0000)
    } else if unit == "T"@ || unit == "TiB"@ {
        Some(0x100_0000_0000)
    } else {
        None
    }
}

/// The number of bytes that a text such as `8G` stands for.
pub open spec fn size_value(text: Seq<char>) -> Option<nat> {
    let at = leading_digits(text) as int;
    match (parse_decimal(text.take(at), u64::MAX as nat), size_unit(text.skip(at))) {
        (Some(count), Some(unit)) => if count * unit <= u64::MAX {
            Some(count * unit)
        } else {
            None
        },
        _ => None,
    }
}

proof fn lemma_leading_digits(text: Seq<char>, at: int)
    requires
        0 <= at <= text.len(),
        forall|k: int| 0 <= k < at ==> digit_value(#[trigger] text[k]) < 10,
        at < text.len() ==> digit_value(text[at]) >= 10,
    ensures
        leading_digits(text) == at,
    decreases text.len(),
{
    if at > 0 {
        let rest = text.skip(1);
        assert forall|k: int| 0 <= k < at - 1 implies digit_value(#[trigger] rest[k]) < 10 by {
            assert(rest[k] == text[k + 1]);
        }
        if at < text.len() {
            assert(rest[at - 1] == text[at]);
        }
        lemma_leading_digits(rest, at - 1);
    }
}

fn unit_bytes(unit: &str) -> (bytes: Option<u64>)
    ensures
        (match bytes {
            Some(n) => Some(n as nat),
            None => None,
        }) == size_unit(unit@),
{
    if same(unit, "") {
        Some(1)
    } else if same(unit, "K") || same(unit, "KiB") {
        Some(0x400)
    } else if same(unit, "M") || same(unit, "MiB") {
        Some(0x10_0000)
    } else if same(unit, "G") || same(unit, "GiB") {
        Some(0x4000_0000)
    } else if same(unit, "T") || same(unit, "TiB") {
        Some(0x100_0000_0000)
    } else {
        None
    }
}

/// The number of bytes that a text such as `8G` stands for. The units are
/// binary, and so large a number that it does not fit is none.
pub fn parse_size(text: &str) -> (size: Option<u64>)
    ensures
        (match size {
            Some(n) => Some(n as nat),
            None => None,
        }) == size_value(text@),
{
    let chars = chars_of(text);
    let mut at: usize = 0;
    while at < chars.len() && '0' <= chars[at] && chars[at] <= '9'
        invariant
            at <= chars@.len(),
            forall|k: int| 0 <= k < at ==> digit_value(#[trigger] chars@[k]) < 10,
        decreases chars.len() - at,
    {
        at += 1;
    }
    proof {
        lemma_leading_digits(text@, at as int);
    }
    let number = text_between(&chars, 0, at);
    let unit = text_between(&chars, at, chars.len());
    assert(number@ =~= text@.take(at as int));
    assert(unit@ =~= text@.skip(at as int));
    match (parse_number(&number, u64::MAX), unit_bytes(&unit)) {
        (Some(count), Some(bytes)) => count.checked_mul(bytes),
        _ => None,
    }
}

// ---------------------------------------------------------------------------
// The decision
// ---------------------------------------------------------------------------
/// Where a root is installed.
#[derive(Debug, PartialEq, Eq)]
pub enum InstallTarget<T> {
    Directory(T),
    /// A new image of so many bytes.
    Image(T, u64),
}

impl View for InstallTarget<String> {
    type V = InstallTarget<Seq<char>>;

    open spec fn view(&self) -> InstallTarget<Seq<char>> {
        match self {
            InstallTarget::Directory(path) => InstallTarget::Directory(path@),
            InstallTarget::Image(path, bytes) => InstallTarget::Image(path@, *bytes),
        }
    }
}

/// Where a root is installed: images need a size, and directories take none.
pub open spec fn install_target(config: &Config, size: Option<u64>) -> Result<
    InstallTarget<Seq<char>>,
    InstallError,
> {
    match (config.container.rootfs, config.container.rootfs_image, size) {
        (Some(path), _, None) => Ok(InstallTarget::Directory(path@)),
        (Some(path), _, Some(bytes)) => Err(InstallError::SizeGiven),
        (None, Some(path), Some(bytes)) => Ok(InstallTarget::Image(path@, bytes)),
        (None, Some(path), None) => Err(InstallError::SizeMissing),
        (None, None, _) => Err(InstallError::NoTarget),
    }
}

/// Whether and where a root is installed.
pub open spec fn install_decision(
    config: &Config,
    running: bool,
    size: Option<u64>,
    exists_already: bool,
    force: bool,
) -> Result<InstallTarget<Seq<char>>, InstallError> {
    if running {
        Err(InstallError::Running)
    } else {
        match install_target(config, size) {
            Ok(target) => if exists_already && !force {
                Err(InstallError::TargetExists)
            } else {
                Ok(target)
            },
            Err(error) => Err(error),
        }
    }
}

impl Runtime {
    /// Whether and where a root is installed. Image targets require `size`;
    /// directory targets reject it. Existing targets are replaced only when
    /// `force` is true, and a running container keeps its root.
    pub fn install(&self, running: bool, size: Option<u64>, exists: bool, force: bool) -> (result:
        Result<InstallTarget<String>, InstallError>)
        ensures
            match (result, install_decision(&self.config, running, size, exists, force)) {
                (Ok(target), Ok(expected)) => target@ == expected,
                (Err(error), Err(expected)) => error == expected,
                _ => false,
            },
    {
        if running {
            return Err(InstallError::Running);
        }
        let container = &self.config.container;
        let target = match (&container.rootfs, &container.rootfs_image, size) {
            (Some(path), _, None) => InstallTarget::Directory(path.clone()),
            (Some(_), _, Some(_)) => {
                return Err(InstallError::SizeGiven);
            },
            (None, Some(path), Some(bytes)) => InstallTarget::Image(path.clone(), bytes),
            (None, Some(_), None) => {
                return Err(InstallError::SizeMissing);
            },
            (None, None, _) => {
                return Err(InstallError::NoTarget);
            },
        };
        if exists && !force {
            return Err(InstallError::TargetExists);
        }
        Ok(target)
    }
}

/// An installation never touches the root of a running container, and nothing
/// that exists without being told to.
pub proof fn law_installation_is_careful(
    config: &Config,
    running: bool,
    size: Option<u64>,
    exists_already: bool,
    force: bool,
)
    ensures
        install_decision(config, running, size, exists_already, force) is Ok ==> !running && (
        exists_already ==> force),
        !running && (exists_already ==> force) && (config.container.rootfs is Some
            != config.container.rootfs_image is Some) && (config.container.rootfs_image is Some
            == size is Some) ==> install_decision(config, running, size, exists_already, force)
            is Ok,
{
}

// ---------------------------------------------------------------------------
// The work
// ---------------------------------------------------------------------------
/// Where an installation stands. The new root is staged beside the target.
#[derive(Clone, Copy, Debug, PartialEq, Eq, Structural)]
pub enum InstallPhase {
    /// Makes room for the staged root.
    Stage,
    /// Unpacks the archive into it.
    Extract,
    /// Makes sure that init can be executed in it.
    CheckInit,
    /// Puts it in the place of the target, at once.
    Replace,
    /// Removes what is staged: the new root where it was not put in place, and
    /// otherwise the old one.
    Discard(InstallOutcome),
    Done(InstallOutcome),
}

/// What comes of an installation.
#[derive(Clone, Copy, Debug, PartialEq, Eq, Structural)]
pub enum InstallOutcome {
    Installed,
    StagingFailed,
    /// The archive is invalid.
    ArchiveRefused,
    /// The root has no valid init.
    InitRefused,
    ReplacementFailed,
}

/// How an installation goes on after its phase succeeded or failed. What is
/// left over is removed as well as it can be.
pub open spec fn next_install_phase(phase: InstallPhase, success: bool) -> InstallPhase {
    match phase {
        InstallPhase::Stage => if success {
            InstallPhase::Extract
        } else {
            InstallPhase::Discard(InstallOutcome::StagingFailed)
        },
        InstallPhase::Extract => if success {
            InstallPhase::CheckInit
        } else {
            InstallPhase::Discard(InstallOutcome::ArchiveRefused)
        },
        InstallPhase::CheckInit => if success {
            InstallPhase::Replace
        } else {
            InstallPhase::Discard(InstallOutcome::InitRefused)
        },
        InstallPhase::Replace => if success {
            InstallPhase::Discard(InstallOutcome::Installed)
        } else {
            InstallPhase::Discard(InstallOutcome::ReplacementFailed)
        },
        InstallPhase::Discard(outcome) => InstallPhase::Done(outcome),
        InstallPhase::Done(outcome) => phase,
    }
}

/// How an installation goes on after its phase succeeded or failed.
pub fn install_step(phase: InstallPhase, success: bool) -> (next: InstallPhase)
    ensures
        next == next_install_phase(phase, success),
{
    match phase {
        InstallPhase::Stage => if success {
            InstallPhase::Extract
        } else {
            InstallPhase::Discard(InstallOutcome::StagingFailed)
        },
        InstallPhase::Extract => if success {
            InstallPhase::CheckInit
        } else {
            InstallPhase::Discard(InstallOutcome::ArchiveRefused)
        },
        InstallPhase::CheckInit => if success {
            InstallPhase::Replace
        } else {
            InstallPhase::Discard(InstallOutcome::InitRefused)
        },
        InstallPhase::Replace => if success {
            InstallPhase::Discard(InstallOutcome::Installed)
        } else {
            InstallPhase::Discard(InstallOutcome::ReplacementFailed)
        },
        InstallPhase::Discard(outcome) => InstallPhase::Done(outcome),
        InstallPhase::Done(_) => phase,
    }
}

/// The phase of an installation after the first `count` of its phases went
/// like this.
pub open spec fn install_phase_at(successes: Seq<bool>, count: int) -> InstallPhase
    decreases count,
{
    if count <= 0 {
        InstallPhase::Stage
    } else {
        next_install_phase(install_phase_at(successes, count - 1), successes[count - 1])
    }
}

/// Whether the target has been replaced after so many phases. Only the phase
/// that does so touches it, and where it fails it has done nothing.
pub open spec fn target_replaced(successes: Seq<bool>, count: int) -> bool {
    exists|i: int|
        0 <= i < count && #[trigger] install_phase_at(successes, i) == InstallPhase::Replace
            && successes[i]
}

/// Whether the root was staged, unpacked, looked at and put in place.
pub open spec fn all_succeeded(successes: Seq<bool>) -> bool {
    successes[0] && successes[1] && successes[2] && successes[3]
}

proof fn lemma_install_phase(successes: Seq<bool>, count: int)
    requires
        0 <= count,
    ensures
        match install_phase_at(successes, count) {
            InstallPhase::Stage => count == 0,
            InstallPhase::Extract => count == 1 && successes[0],
            InstallPhase::CheckInit => count == 2 && successes[0] && successes[1],
            InstallPhase::Replace => count == 3 && successes[0] && successes[1] && successes[2],
            InstallPhase::Discard(outcome) => count <= 4 && (outcome == InstallOutcome::Installed
                <==> all_succeeded(successes)) && (outcome == InstallOutcome::Installed ==> count
                == 4),
            InstallPhase::Done(outcome) => count >= 2 && (outcome == InstallOutcome::Installed
                <==> all_succeeded(successes)) && (outcome == InstallOutcome::Installed ==> count
                >= 5),
        },
    decreases count,
{
    if count > 0 {
        lemma_install_phase(successes, count - 1);
    }
}

/// The target is replaced only after the archive has been unpacked and its
/// init looked at, and an installation that does not succeed leaves it as it
/// was.
pub proof fn law_target_is_replaced_last(successes: Seq<bool>, count: int)
    requires
        0 <= count <= successes.len(),
    ensures
        install_phase_at(successes, count) == InstallPhase::Replace ==> count == 3 && successes[0]
            && successes[1] && successes[2],
        target_replaced(successes, count) ==> all_succeeded(successes),
        install_phase_at(successes, count) matches InstallPhase::Done(outcome) ==> (outcome
            == InstallOutcome::Installed <==> target_replaced(successes, count)),
{
    lemma_install_phase(successes, count);
    if target_replaced(successes, count) {
        let i = choose|i: int|
            0 <= i < count && #[trigger] install_phase_at(successes, i) == InstallPhase::Replace
                && successes[i];
        lemma_install_phase(successes, i);
    }
    if let InstallPhase::Done(outcome) = install_phase_at(successes, count) {
        if outcome == InstallOutcome::Installed {
            reveal_with_fuel(install_phase_at, 5);
            assert(install_phase_at(successes, 3) == InstallPhase::Replace);
        }
    }
}

// ---------------------------------------------------------------------------
// What holds of every installation
// ---------------------------------------------------------------------------
/// The size that a count of units stands for, where it is not too large.
pub open spec fn bounded(count: nat, unit: nat) -> Option<nat> {
    if count * unit <= u64::MAX {
        Some(count * unit)
    } else {
        None
    }
}

proof fn lemma_size(n: u64, unit: Seq<char>)
    requires
        unit.len() > 0 ==> digit_value(unit[0]) >= 10,
    ensures
        size_value(decimal(n as nat) + unit) == match size_unit(unit) {
            Some(bytes) => bounded(n as nat, bytes),
            None => None,
        },
{
    let digits = decimal(n as nat);
    let text = digits + unit;
    law_decimal_round_trip(n as nat, u64::MAX as nat);
    lemma_decimal_digits(n as nat);
    let at = digits.len() as int;
    assert forall|k: int| 0 <= k < at implies digit_value(#[trigger] text[k]) < 10 by {
        assert(text[k] == digits[k]);
    }
    lemma_leading_digits(text, at);
    assert(text.take(at) =~= digits);
    assert(text.skip(at) =~= unit);
}

/// A size is a number of bytes, or of units each of which is 1024 times the
/// one before it; one that does not fit, or has another unit, is none.
pub proof fn law_units_are_binary(n: u64, unit: Seq<char>)
    requires
        unit.len() > 0,
        !('0' <= unit[0] <= '9'),
    ensures
        size_value(decimal(n as nat)) == Some(n as nat),
        size_value(decimal(n as nat) + "K"@) == bounded(n as nat, 1024),
        size_value(decimal(n as nat) + "M"@) == bounded(n as nat, 1024 * 1024),
        size_value(decimal(n as nat) + "G"@) == bounded(n as nat, 1024 * 1024 * 1024),
        size_value(decimal(n as nat) + "T"@) == bounded(n as nat, 1024 * 1024 * 1024 * 1024),
        size_value(decimal(n as nat) + "KiB"@) == size_value(decimal(n as nat) + "K"@),
        size_value(decimal(n as nat) + "MiB"@) == size_value(decimal(n as nat) + "M"@),
        size_value(decimal(n as nat) + "GiB"@) == size_value(decimal(n as nat) + "G"@),
        size_value(decimal(n as nat) + "TiB"@) == size_value(decimal(n as nat) + "T"@),
        size_value(decimal(n as nat) + unit) is Some ==> unit[0] == 'K' || unit[0] == 'M' || unit[0]
            == 'G' || unit[0] == 'T',
        size_value(decimal(n as nat) + unit) is Some ==> unit.len() == 1 || (unit.len() == 3
            && unit[1] == 'i' && unit[2] == 'B'),
        size_value(unit) is None,
{
    reveal_strlit("");
    reveal_strlit("K");
    reveal_strlit("M");
    reveal_strlit("G");
    reveal_strlit("T");
    reveal_strlit("KiB");
    reveal_strlit("MiB");
    reveal_strlit("GiB");
    reveal_strlit("TiB");
    let digits = decimal(n as nat);
    assert(digits + ""@ =~= digits);
    lemma_size(n, ""@);
    lemma_units_differ();
    lemma_size(n, "K"@);
    lemma_size(n, "M"@);
    lemma_size(n, "G"@);
    lemma_size(n, "T"@);
    lemma_size(n, "KiB"@);
    lemma_size(n, "MiB"@);
    lemma_size(n, "GiB"@);
    lemma_size(n, "TiB"@);
    lemma_size(n, unit);
    assert(leading_digits(unit) == 0);
    assert(unit.take(0) =~= Seq::<char>::empty());
}

proof fn lemma_units_differ()
    ensures
        size_unit(""@) == Some(1nat),
        size_unit("K"@) == Some(1024nat),
        size_unit("KiB"@) == Some(1024nat),
        size_unit("M"@) == Some(1048576nat),
        size_unit("MiB"@) == Some(1048576nat),
        size_unit("G"@) == Some(1073741824nat),
        size_unit("GiB"@) == Some(1073741824nat),
        size_unit("T"@) == Some(1099511627776nat),
        size_unit("TiB"@) == Some(1099511627776nat),
{
    reveal_strlit("");
    reveal_strlit("K");
    reveal_strlit("M");
    reveal_strlit("G");
    reveal_strlit("T");
    reveal_strlit("KiB");
    reveal_strlit("MiB");
    reveal_strlit("GiB");
    reveal_strlit("TiB");
    assert("K"@[0] == 'K' && "M"@[0] == 'M' && "G"@[0] == 'G' && "T"@[0] == 'T');
    assert("KiB"@[0] == 'K' && "MiB"@[0] == 'M' && "GiB"@[0] == 'G' && "TiB"@[0] == 'T');
    assert("K"@.len() == 1 && "M"@.len() == 1 && "G"@.len() == 1 && "T"@.len() == 1 && ""@.len()
        == 0);
    assert("KiB"@.len() == 3 && "MiB"@.len() == 3 && "GiB"@.len() == 3 && "TiB"@.len() == 3);
}

/// A root is installed where it is configured: into the directory, without a
/// size, or as an image, of the size that is asked for. What is refused is told
/// by the first reason.
pub proof fn law_roots_are_installed_where_they_are_configured(
    config: &Config,
    running: bool,
    size: Option<u64>,
    exists_already: bool,
    force: bool,
)
    ensures
        ({
            let decision = install_decision(config, running, size, exists_already, force);
            let container = config.container;
            &&& decision matches Ok(InstallTarget::Directory(path)) ==> size is None
                && container.rootfs is Some && container.rootfs->0@ == path
            &&& decision matches Ok(InstallTarget::Image(path, bytes)) ==> size == Some(bytes)
                && container.rootfs is None && container.rootfs_image is Some
                && container.rootfs_image->0@ == path
            &&& decision == Err::<InstallTarget<Seq<char>>, InstallError>(InstallError::Running)
                <==> running
            &&& decision == Err::<InstallTarget<Seq<char>>, InstallError>(InstallError::NoTarget)
                <==> !running && container.rootfs is None && container.rootfs_image is None
            &&& decision == Err::<InstallTarget<Seq<char>>, InstallError>(InstallError::SizeGiven)
                <==> !running && container.rootfs is Some && size is Some
            &&& decision == Err::<InstallTarget<Seq<char>>, InstallError>(
                InstallError::SizeMissing,
            ) <==> !running && container.rootfs is None && container.rootfs_image is Some && size
                is None
            &&& decision == Err::<InstallTarget<Seq<char>>, InstallError>(
                InstallError::TargetExists,
            ) <==> exists_already && !force && install_decision(config, running, size, false, force)
                is Ok
        }),
{
}

/// What comes of an installation is told by the first of its phases that
/// failed.
pub proof fn law_first_failed_phase_is_told(successes: Seq<bool>)
    ensures
        !successes[0] ==> install_phase_at(successes, 2) == InstallPhase::Done(
            InstallOutcome::StagingFailed,
        ),
        successes[0] && !successes[1] ==> install_phase_at(successes, 3) == InstallPhase::Done(
            InstallOutcome::ArchiveRefused,
        ),
        successes[0] && successes[1] && !successes[2] ==> install_phase_at(successes, 4)
            == InstallPhase::Done(InstallOutcome::InitRefused),
        successes[0] && successes[1] && successes[2] && !successes[3] ==> install_phase_at(
            successes,
            5,
        ) == InstallPhase::Done(InstallOutcome::ReplacementFailed),
        successes[0] && successes[1] && successes[2] && successes[3] ==> install_phase_at(
            successes,
            5,
        ) == InstallPhase::Done(InstallOutcome::Installed),
        successes[0] ==> install_phase_at(successes, 1) == InstallPhase::Extract,
        successes[0] && successes[1] ==> install_phase_at(successes, 2) == InstallPhase::CheckInit,
        forall|outcome: InstallOutcome, success: bool|
            #[trigger] next_install_phase(InstallPhase::Done(outcome), success)
                == InstallPhase::Done(outcome),
{
    reveal_with_fuel(install_phase_at, 6);
}

} // verus!
