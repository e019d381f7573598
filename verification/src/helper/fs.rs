//! Mounts and loop devices.
use vstd::prelude::*;

use crate::text::{decimal, decimal_text, joined, lemma_views_empty, lemma_views_push, views};

verus! {

pub const MS_RDONLY: u64 = 0x1;

pub const MS_NOSUID: u64 = 0x2;

pub const MS_NODEV: u64 = 0x4;

pub const MS_NOEXEC: u64 = 0x8;

pub const MS_REMOUNT: u64 = 0x20;

pub const MS_DIRSYNC: u64 = 0x80;

pub const MS_NOATIME: u64 = 0x400;

pub const MS_NODIRATIME: u64 = 0x800;

pub const MS_BIND: u64 = 0x1000;

pub const MS_REC: u64 = 0x4000;

pub const MS_PRIVATE: u64 = 0x4_0000;

/// A bind mount made read-only.
pub const READ_ONLY_BIND: u64 = MS_BIND | MS_REMOUNT | MS_RDONLY;

/// A bind mount with everything below it.
pub const RECURSIVE_BIND: u64 = MS_BIND | MS_REC;

/// No set-user-ID programs, no devices and no programs at all.
pub const INERT: u64 = MS_NOSUID | MS_NODEV | MS_NOEXEC;

/// The type of a temporary file system as the kernel reports it.
pub const TMPFS_MAGIC: i64 = 0x0102_1994;

/// One call of `mount`.
#[derive(Debug, PartialEq, Eq)]
pub struct Mount<T> {
    pub source: Option<T>,
    pub target: T,
    pub filesystem: Option<T>,
    pub flags: u64,
    pub data: Option<T>,
}

/// The text of an optional string.
pub open spec fn optional_view(text: Option<String>) -> Option<Seq<char>> {
    match text {
        Some(text) => Some(text@),
        None => None,
    }
}

impl View for Mount<String> {
    type V = Mount<Seq<char>>;

    open spec fn view(&self) -> Mount<Seq<char>> {
        Mount {
            source: optional_view(self.source),
            target: self.target@,
            filesystem: optional_view(self.filesystem),
            flags: self.flags,
            data: optional_view(self.data),
        }
    }
}

/// An optional string of one's own.
pub fn owned(text: Option<&str>) -> (result: Option<String>)
    ensures
        optional_view(result) == (match text {
            Some(text) => Some(text@),
            None => None,
        }),
{
    match text {
        Some(text) => Some(text.to_owned()),
        None => None,
    }
}

/// How often a loop device is asked for before the attempt is given up.
pub const LOOP_ATTACH_ATTEMPTS: usize = 8;

/// What came of the attempt to tie a loop device to an image.
#[derive(Clone, Copy, Debug, PartialEq, Eq, Structural)]
pub enum LoopOutcome {
    Attached,
    /// Another process took the device first.
    Busy,
    Failed,
}

/// What to do about it.
#[derive(Clone, Copy, Debug, PartialEq, Eq, Structural)]
pub enum LoopDecision {
    /// The device is ours.
    Keep,
    /// Ask for another free device.
    Retry,
    /// Report that all devices are busy.
    ReportBusy,
    /// Report the failure.
    Report,
}

/// Decides after the attempt with this number, counted from zero.
pub fn loop_attach(attempt: usize, outcome: LoopOutcome) -> (decision: LoopDecision)
    ensures
        decision == match outcome {
            LoopOutcome::Attached => LoopDecision::Keep,
            LoopOutcome::Failed => LoopDecision::Report,
            LoopOutcome::Busy => if attempt + 1 < LOOP_ATTACH_ATTEMPTS {
                LoopDecision::Retry
            } else {
                LoopDecision::ReportBusy
            },
        },
{
    match outcome {
        LoopOutcome::Attached => LoopDecision::Keep,
        LoopOutcome::Failed => LoopDecision::Report,
        LoopOutcome::Busy => if attempt < LOOP_ATTACH_ATTEMPTS - 1 {
            LoopDecision::Retry
        } else {
            LoopDecision::ReportBusy
        },
    }
}

/// The places where the node of a loop device may be, in order.
pub fn loop_device_paths(index: u32) -> (paths: Vec<String>)
    ensures
        views(paths@) == seq![
            "/dev/loop"@ + decimal(index as nat),
            "/dev/block/loop"@ + decimal(index as nat),
        ],
{
    broadcast use {lemma_views_push, lemma_views_empty};

    let number = decimal_text(index as u64);
    let mut paths: Vec<String> = Vec::new();
    paths.push(joined("/dev/loop", &number));
    paths.push(joined("/dev/block/loop", &number));
    assert(views(paths@) =~= seq![
        "/dev/loop"@ + decimal(index as nat),
        "/dev/block/loop"@ + decimal(index as nat),
    ]);
    paths
}

/// The name of the image in the record of a loop device: as much of it as
/// fits, with a zero behind it.
pub open spec fn loop_name(name: Seq<u8>) -> Seq<u8> {
    Seq::new(
        64,
        |i: int|
            if i < name.len() && i < 63 {
                name[i]
            } else {
                0
            },
    )
}

/// The name of the image in the record of a loop device.
pub fn loop_file_name(name: &[u8]) -> (record: Vec<u8>)
    ensures
        record@ == loop_name(name@),
{
    let mut record: Vec<u8> = Vec::new();
    let mut i: usize = 0;
    while i < 64
        invariant
            i <= 64,
            record@ == loop_name(name@).take(i as int),
        decreases 64 - i,
    {
        let byte: u8 = if i < name.len() && i < 63 {
            name[i]
        } else {
            0
        };
        record.push(byte);
        i += 1;
        assert(loop_name(name@).take(i as int) =~= loop_name(name@).take(i - 1).push(byte));
    }
    assert(loop_name(name@).take(64) =~= loop_name(name@));
    record
}

/// The name in the record of a loop device begins as the name of the image
/// does, and always ends with a zero.
pub proof fn law_loop_names_are_ended(name: Seq<u8>)
    ensures
        loop_name(name).len() == 64,
        loop_name(name)[63] == 0,
        name.len() <= 63 ==> loop_name(name).take(name.len() as int) == name,
        name.len() > 63 ==> loop_name(name).take(63) == name.take(63),
        forall|i: int| name.len() <= i < 64 ==> #[trigger] loop_name(name)[i] == 0,
{
    if name.len() <= 63 {
        assert(loop_name(name).take(name.len() as int) =~= name);
    } else {
        assert(loop_name(name).take(63) =~= name.take(63));
    }
}

} // verus!
