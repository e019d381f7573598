//! Leases on settings of the host that several containers share: the first
//! that needs a setting changes it, and the last that is done restores it.
use vstd::prelude::*;

use crate::text::{same, views};

verus! {

// ---------------------------------------------------------------------------
// Leases that count their users
// ---------------------------------------------------------------------------
/// A lease that counts its users.
#[derive(Clone, Copy, Debug, Default, PartialEq, Eq, Structural)]
pub struct CountedLease {
    pub users: u64,
    /// The setting is to be restored in the end.
    pub restore: bool,
}

/// What to do when a user is done.
#[derive(Clone, Copy, Debug, PartialEq, Eq, Structural)]
pub enum Release {
    /// Others need the setting: write the lease back.
    Keep(CountedLease),
    /// Nobody does: remove the lease, and restore the setting where the flag
    /// says so.
    Remove { restore: bool },
}

impl CountedLease {
    /// The lease with one more user. The first user takes down whether the
    /// setting will have to be restored.
    pub open spec fn acquired(self, changes: bool) -> CountedLease {
        CountedLease {
            users: (self.users + 1) as u64,
            restore: if self.users == 0 {
                changes
            } else {
                self.restore
            },
        }
    }

    /// The lease with one user less.
    pub open spec fn released(self) -> Release {
        if self.users <= 1 {
            Release::Remove { restore: self.restore }
        } else {
            Release::Keep(CountedLease { users: (self.users - 1) as u64, restore: self.restore })
        }
    }

    /// Adds a user; `changes` says that the setting is not yet as wanted. The
    /// result tells whether this user has to change it.
    pub fn acquire(&mut self, changes: bool) -> (apply: bool)
        requires
            old(self).users < u64::MAX,
        ensures
            *final(self) == old(self).acquired(changes),
            apply == (old(self).users == 0 && changes),
    {
        let first = self.users == 0;
        if first {
            self.restore = changes;
        }
        self.users = self.users + 1;
        first && self.restore
    }

    /// Takes a user away.
    pub fn release(self) -> (decision: Release)
        ensures
            decision == self.released(),
    {
        let users: u64 = self.users.saturating_sub(1);
        if users == 0 {
            Release::Remove { restore: self.restore }
        } else {
            Release::Keep(CountedLease { users, restore: self.restore })
        }
    }
}

/// A user that comes and goes leaves a lease of others as it was.
pub proof fn law_lease_of_others_is_kept(lease: CountedLease, changes: bool)
    requires
        0 < lease.users < u64::MAX,
    ensures
        lease.acquired(changes).released() == Release::Keep(lease),
{
}

/// A lease with one user only restores the setting exactly where that user
/// changed it.
pub proof fn law_last_user_restores(restore: bool, changes: bool)
    ensures
        (CountedLease { users: 0, restore }).acquired(changes).released() == (Release::Remove {
            restore: changes,
        }),
{
}

/// The lease after `count` more users, none of which had to change anything.
pub open spec fn joined_by(lease: CountedLease, count: nat) -> CountedLease
    decreases count,
{
    if count == 0 {
        lease
    } else {
        joined_by(lease, (count - 1) as nat).acquired(false)
    }
}

/// However many users join a lease, what the first of them took down stays.
pub proof fn law_first_user_decides(lease: CountedLease, count: nat)
    requires
        lease.users > 0,
        lease.users + count <= u64::MAX,
    ensures
        joined_by(lease, count).restore == lease.restore,
        joined_by(lease, count).users == lease.users + count,
    decreases count,
{
    if count > 0 {
        law_first_user_decides(lease, (count - 1) as nat);
    }
}

// ---------------------------------------------------------------------------
// Leases that know their owners
// ---------------------------------------------------------------------------
/// A process that holds a lease, told apart from later ones with its number.
#[derive(Debug, PartialEq, Eq)]
pub struct NatLeaseOwner {
    pub host_boot_id: String,
    pub pid: i32,
    pub start_time: u64,
}

/// The view of an owner.
#[verifier::ext_equal]
pub struct OwnerView {
    pub host_boot_id: Seq<char>,
    pub pid: i32,
    pub start_time: u64,
}

impl View for NatLeaseOwner {
    type V = OwnerView;

    open spec fn view(&self) -> OwnerView {
        OwnerView {
            host_boot_id: self.host_boot_id@,
            pid: self.pid,
            start_time: self.start_time,
        }
    }
}

/// What the host says of a process: when it started and whether it has ended
/// without having been waited for.
#[derive(Clone, Copy, Debug, PartialEq, Eq, Structural)]
pub struct ProcessStat {
    pub start_time: u64,
    pub zombie: bool,
}

/// Whether an owner lives, where `stat` is what the host says of the process
/// with its number.
pub open spec fn owner_lives(
    owner: OwnerView,
    boot_id: Seq<char>,
    stat: Option<ProcessStat>,
) -> bool {
    &&& owner.host_boot_id == boot_id
    &&& stat is Some
    &&& stat->0.start_time == owner.start_time
    &&& !stat->0.zombie
}

impl NatLeaseOwner {
    /// The owner with these marks.
    pub fn new(host_boot_id: String, pid: i32, start_time: u64) -> (owner: NatLeaseOwner)
        ensures
            owner@ == (OwnerView { host_boot_id: host_boot_id@, pid, start_time }),
    {
        NatLeaseOwner { host_boot_id, pid, start_time }
    }

    /// Whether the owner lives.
    pub fn is_live(&self, boot_id: &str, stat: Option<ProcessStat>) -> (result: bool)
        ensures
            result == owner_lives(self@, boot_id@, stat),
    {
        same(&self.host_boot_id, boot_id) && match stat {
            Some(stat) => stat.start_time == self.start_time && !stat.zombie,
            None => false,
        }
    }

    /// Whether two owners are one.
    pub fn is(&self, other: &NatLeaseOwner) -> (result: bool)
        ensures
            result == (self@ == other@),
    {
        same(&self.host_boot_id, &other.host_boot_id) && self.pid == other.pid && self.start_time
            == other.start_time
    }

    fn copy(&self) -> (copy: NatLeaseOwner)
        ensures
            copy@ == self@,
    {
        NatLeaseOwner {
            host_boot_id: self.host_boot_id.clone(),
            pid: self.pid,
            start_time: self.start_time,
        }
    }
}

/// A lease that knows its owners.
#[derive(Debug, PartialEq, Eq)]
pub struct NatLease {
    pub owners: Vec<NatLeaseOwner>,
    /// Forwarding was off before the first owner came.
    pub restore_disabled: bool,
}

/// The owners that `kept` picks, in order.
pub open spec fn kept_owners(owners: Seq<OwnerView>, kept: Seq<bool>) -> Seq<OwnerView>
    decreases owners.len(),
{
    if owners.len() == 0 {
        Seq::empty()
    } else {
        let before = kept_owners(owners.drop_last(), kept);
        if kept[owners.len() - 1] {
            before.push(owners.last())
        } else {
            before
        }
    }
}

/// The owners of a lease that live.
pub open spec fn live_owners(lease: &NatLease, live: Seq<bool>) -> Seq<OwnerView> {
    kept_owners(views(lease.owners@), live)
}

/// The owners of a lease once another one has taken it.
pub open spec fn acquired_owners(lease: &NatLease, live: Seq<bool>, owner: OwnerView) -> Seq<
    OwnerView,
> {
    let left = live_owners(lease, live);
    if left.contains(owner) {
        left
    } else {
        left.push(owner)
    }
}

/// Whether forwarding was off before the first owner of a lease came.
pub open spec fn acquired_restore(
    lease: &NatLease,
    live: Seq<bool>,
    recorded: bool,
    disabled: bool,
) -> bool {
    if live_owners(lease, live).len() == 0 && !recorded {
        disabled
    } else {
        lease.restore_disabled
    }
}

/// The owners of a lease that live, but for one.
pub open spec fn other_owners(lease: &NatLease, live: Seq<bool>, owner: OwnerView) -> Seq<
    OwnerView,
> {
    live_owners(lease, live).filter(all_but(owner))
}

/// Picks all owners but one.
pub open spec fn all_but(owner: OwnerView) -> spec_fn(OwnerView) -> bool {
    |other: OwnerView| other != owner
}

fn keep_owners(owners: &Vec<NatLeaseOwner>, kept: &Vec<bool>) -> (result: Vec<NatLeaseOwner>)
    requires
        owners@.len() == kept@.len(),
    ensures
        views(result@) == kept_owners(views(owners@), kept@),
{
    broadcast use {crate::text::lemma_views_push, crate::text::lemma_views_empty};

    let ghost all = views(owners@);
    let mut result: Vec<NatLeaseOwner> = Vec::new();
    let mut i: usize = 0;
    assert(views(result@) =~= kept_owners(all.take(0), kept@));
    while i < owners.len()
        invariant
            i <= owners@.len(),
            owners@.len() == kept@.len(),
            all == views(owners@),
            views(result@) == kept_owners(all.take(i as int), kept@),
        decreases owners.len() - i,
    {
        broadcast use {crate::text::lemma_views_push, crate::text::lemma_views_empty};

        assert(all.take(i + 1).drop_last() =~= all.take(i as int));
        assert(all.take(i + 1).last() == owners@[i as int]@);
        if kept[i] {
            result.push(owners[i].copy());
        }
        i += 1;
    }
    assert(all.take(i as int) =~= all);
    result
}

/// What to do when an owner is done.
#[derive(Debug, PartialEq, Eq)]
pub enum NatRelease {
    /// Others hold the lease: write it back.
    Keep(NatLease),
    /// Nobody does: remove it, and switch forwarding off where the flag says
    /// so.
    Remove { disable: bool },
}

impl NatLease {
    /// No lease.
    pub fn empty() -> (lease: NatLease)
        ensures
            lease.owners@.len() == 0,
            !lease.restore_disabled,
    {
        NatLease { owners: Vec::new(), restore_disabled: false }
    }

    /// Takes the lease for an owner. `live` says of each owner whether it
    /// lives; those that do not lose the lease. `recorded` says that there was
    /// a record of the lease, and `disabled` that forwarding is off now, which
    /// is taken down only where there was none.
    pub fn acquire(
        &self,
        owner: NatLeaseOwner,
        live: &Vec<bool>,
        recorded: bool,
        disabled: bool,
    ) -> (lease: NatLease)
        requires
            live@.len() == self.owners@.len(),
        ensures
            views(lease.owners@) == acquired_owners(self, live@, owner@),
            lease.restore_disabled == acquired_restore(self, live@, recorded, disabled),
            ({
                let left = live_owners(self, live@);
                &&& views(lease.owners@) == if left.contains(owner@) {
                    left
                } else {
                    left.push(owner@)
                }
                &&& lease.restore_disabled == if left.len() == 0 && !recorded {
                    disabled
                } else {
                    self.restore_disabled
                }
            }),
    {
        broadcast use {crate::text::lemma_views_push, crate::text::lemma_views_empty};

        let mut owners = keep_owners(&self.owners, live);
        let ghost left = views(owners@);
        assert(left.len() == owners@.len());
        let restore_disabled = if owners.len() == 0 && !recorded {
            disabled
        } else {
            self.restore_disabled
        };
        let mut held = false;
        let mut i: usize = 0;
        while i < owners.len()
            invariant
                i <= owners@.len(),
                left == views(owners@),
                held == exists|k: int| 0 <= k < i && (#[trigger] left[k]) == owner@,
            decreases owners.len() - i,
        {
            assert(left[i as int] == owners@[i as int]@);
            if owners[i].is(&owner) {
                held = true;
            }
            i += 1;
        }
        if !held {
            assert(!left.contains(owner@)) by {
                if left.contains(owner@) {
                    let k = choose|k: int| 0 <= k < left.len() && left[k] == owner@;
                    assert(left[k] == owner@);
                }
            }
            owners.push(owner);
        } else {
            let ghost k = choose|k: int| 0 <= k < left.len() && (#[trigger] left[k]) == owner@;
            assert(left.contains(left[k]));
        }
        NatLease { owners, restore_disabled }
    }

    /// Gives the lease of an owner up; those that do not live lose it too.
    pub fn release(&self, owner: &NatLeaseOwner, live: &Vec<bool>) -> (decision: NatRelease)
        requires
            live@.len() == self.owners@.len(),
        ensures
            ({
                let left = other_owners(self, live@, owner@);
                match decision {
                    NatRelease::Keep(lease) => left.len() > 0 && views(lease.owners@) == left
                        && lease.restore_disabled == self.restore_disabled,
                    NatRelease::Remove { disable } => left.len() == 0 && disable
                        == self.restore_disabled,
                }
            }),
    {
        broadcast use {crate::text::lemma_views_push, crate::text::lemma_views_empty};

        let alive = keep_owners(&self.owners, live);
        let ghost all = views(alive@);
        let ghost kept = all_but(owner@);
        let mut owners: Vec<NatLeaseOwner> = Vec::new();
        let mut i: usize = 0;
        proof {
            reveal(Seq::filter);
            assert(all.take(0).filter(kept) =~= Seq::<OwnerView>::empty());
        }
        while i < alive.len()
            invariant
                i <= alive@.len(),
                all == views(alive@),
                kept == all_but(owner@),
                views(owners@) == all.take(i as int).filter(kept),
            decreases alive.len() - i,
        {
            broadcast use {crate::text::lemma_views_push, crate::text::lemma_views_empty};

            proof {
                reveal(Seq::filter);
                assert(all.take(i + 1).drop_last() =~= all.take(i as int));
                assert(all.take(i + 1).last() == alive@[i as int]@);
            }
            if !alive[i].is(owner) {
                owners.push(alive[i].copy());
            }
            i += 1;
        }
        assert(all.take(i as int) =~= all);
        assert(views(owners@).len() == owners@.len());
        if owners.len() == 0 {
            NatRelease::Remove { disable: self.restore_disabled }
        } else {
            NatRelease::Keep(NatLease { owners, restore_disabled: self.restore_disabled })
        }
    }
}

/// A process that started at another time, or in another boot of the host, or
/// that has ended, is no owner that lives.
pub proof fn law_stale_owners_do_not_live(
    owner: OwnerView,
    boot_id: Seq<char>,
    stat: Option<ProcessStat>,
)
    requires
        owner.host_boot_id != boot_id || stat is None || stat->0.start_time != owner.start_time
            || stat->0.zombie,
    ensures
        !owner_lives(owner, boot_id, stat),
{
}

proof fn lemma_all_kept(owners: Seq<OwnerView>, kept: Seq<bool>)
    requires
        kept.len() >= owners.len(),
        forall|i: int| 0 <= i < owners.len() ==> #[trigger] kept[i],
    ensures
        kept_owners(owners, kept) == owners,
    decreases owners.len(),
{
    if owners.len() > 0 {
        lemma_all_kept(owners.drop_last(), kept);
        assert(kept[owners.len() - 1]);
        assert(owners =~= owners.drop_last().push(owners.last()));
    } else {
        assert(kept_owners(owners, kept) =~= owners);
    }
}

/// An owner that takes a lease of others and gives it up leaves them in place.
pub proof fn law_other_owners_are_kept(
    before: &NatLease,
    during: &NatLease,
    owner: OwnerView,
    live: Seq<bool>,
)
    requires
        before.owners@.len() > 0,
        !views(before.owners@).contains(owner),
        views(during.owners@) == views(before.owners@).push(owner),
        live.len() == during.owners@.len(),
        forall|i: int| 0 <= i < live.len() ==> #[trigger] live[i],
    ensures
        other_owners(during, live, owner) == views(before.owners@),
{
    let old_owners = views(before.owners@);
    let owners = views(during.owners@);
    let kept = all_but(owner);
    assert(owners.len() == live.len());
    lemma_all_kept(owners, live);
    reveal(Seq::filter);
    assert(owners.drop_last() =~= old_owners);
    assert forall|i: int| 0 <= i < old_owners.len() implies kept(#[trigger] old_owners[i]) by {
        assert(old_owners.contains(old_owners[i]));
    }
    lemma_filter_all(old_owners, kept);
    assert(owners.last() == owner);
    assert(!kept(owner));
    assert(owners.filter(kept) == old_owners.filter(kept));
    assert(live_owners(during, live) == owners);
}

proof fn lemma_filter_all(owners: Seq<OwnerView>, kept: spec_fn(OwnerView) -> bool)
    requires
        forall|i: int| 0 <= i < owners.len() ==> kept(#[trigger] owners[i]),
    ensures
        owners.filter(kept) == owners,
    decreases owners.len(),
{
    reveal(Seq::filter);
    if owners.len() > 0 {
        let shorter = owners.drop_last();
        assert forall|i: int| 0 <= i < shorter.len() implies kept(#[trigger] shorter[i]) by {
            assert(shorter[i] == owners[i]);
        }
        lemma_filter_all(shorter, kept);
        assert(kept(owners[owners.len() - 1]));
        assert(owners =~= shorter.push(owners.last()));
    } else {
        assert(owners.filter(kept) =~= owners);
    }
}

proof fn lemma_kept_members(owners: Seq<OwnerView>, kept: Seq<bool>, owner: OwnerView)
    requires
        kept.len() >= owners.len(),
    ensures
        kept_owners(owners, kept).contains(owner) <==> exists|i: int|
            0 <= i < owners.len() && kept[i] && #[trigger] owners[i] == owner,
        kept_owners(owners, kept).len() <= owners.len(),
    decreases owners.len(),
{
    if owners.len() > 0 {
        let shorter = owners.drop_last();
        let last = owners.len() - 1;
        lemma_kept_members(shorter, kept, owner);
        let before = kept_owners(shorter, kept);
        let after = kept_owners(owners, kept);
        if after.contains(owner) {
            if before.contains(owner) {
                let i = choose|i: int|
                    0 <= i < shorter.len() && kept[i] && #[trigger] shorter[i] == owner;
                assert(owners[i] == owner);
            } else {
                let i = choose|i: int| 0 <= i < after.len() && after[i] == owner;
                if i < before.len() {
                    assert(before[i] == owner);
                    assert(before.contains(owner));
                }
                assert(owners[last] == owner);
            }
        }
        if exists|i: int| 0 <= i < owners.len() && kept[i] && #[trigger] owners[i] == owner {
            let i = choose|i: int|
                0 <= i < owners.len() && kept[i] && #[trigger] owners[i] == owner;
            if i < last {
                assert(shorter[i] == owner);
                let k = choose|k: int| 0 <= k < before.len() && before[k] == owner;
                assert(after[k] == owner);
            } else {
                assert(after[before.len() as int] == owner);
            }
        }
    }
}

/// A lease that is taken belongs to exactly those of its owners that live and
/// to the one that takes it. That forwarding was off is taken down only where
/// there was no lease before.
pub proof fn law_leases_belong_to_the_living(
    lease: &NatLease,
    live: Seq<bool>,
    owner: OwnerView,
    other: OwnerView,
    recorded: bool,
    disabled: bool,
)
    requires
        live.len() == lease.owners@.len(),
    ensures
        ({
            let after = acquired_owners(lease, live, owner);
            let lives = exists|i: int|
                0 <= i < live.len() && live[i] && #[trigger] views(lease.owners@)[i] == other;
            &&& after.contains(owner)
            &&& after.contains(other) <==> other == owner || lives
            &&& after.len() <= lease.owners@.len() + 1
        }),
        recorded ==> acquired_restore(lease, live, recorded, disabled) == lease.restore_disabled,
        (exists|i: int| 0 <= i < live.len() && #[trigger] live[i]) ==> acquired_restore(
            lease,
            live,
            recorded,
            disabled,
        ) == lease.restore_disabled,
        (forall|i: int| 0 <= i < live.len() ==> !(#[trigger] live[i])) && !recorded
            ==> acquired_restore(lease, live, recorded, disabled) == disabled,
{
    let owners = views(lease.owners@);
    assert(owners.len() == live.len());
    let left = live_owners(lease, live);
    let after = acquired_owners(lease, live, owner);
    lemma_kept_members(owners, live, other);
    lemma_kept_members(owners, live, owner);
    if !left.contains(owner) {
        assert(after[left.len() as int] == owner);
        if after.contains(other) && other != owner {
            let i = choose|i: int| 0 <= i < after.len() && after[i] == other;
            assert(left[i] == other);
        }
        if left.contains(other) {
            let i = choose|i: int| 0 <= i < left.len() && left[i] == other;
            assert(after[i] == other);
        }
    }
    if exists|i: int| 0 <= i < live.len() && #[trigger] live[i] {
        let i = choose|i: int| 0 <= i < live.len() && #[trigger] live[i];
        lemma_kept_members(owners, live, owners[i]);
        assert(left.contains(owners[i]));
    }
    if forall|i: int| 0 <= i < live.len() ==> !(#[trigger] live[i]) {
        if left.len() > 0 {
            lemma_kept_members(owners, live, left[0]);
            assert(left.contains(left[0]));
        }
    }
}

/// An owner that gives its lease up no longer has it; the others that live
/// keep it, and where there are none it is removed.
pub proof fn law_released_leases_belong_to_the_others(
    lease: &NatLease,
    live: Seq<bool>,
    owner: OwnerView,
    other: OwnerView,
)
    requires
        live.len() == lease.owners@.len(),
    ensures
        ({
            let lives = exists|i: int|
                0 <= i < live.len() && live[i] && #[trigger] views(lease.owners@)[i] == other;
            &&& !other_owners(lease, live, owner).contains(owner)
            &&& other_owners(lease, live, owner).contains(other) <==> other != owner && lives
        }),
{
    let owners = views(lease.owners@);
    assert(owners.len() == live.len());
    lemma_kept_members(owners, live, other);
    lemma_filtered(live_owners(lease, live), all_but(owner), other);
    lemma_filtered(live_owners(lease, live), all_but(owner), owner);
}

proof fn lemma_filtered(owners: Seq<OwnerView>, kept: spec_fn(OwnerView) -> bool, owner: OwnerView)
    ensures
        owners.filter(kept).contains(owner) <==> owners.contains(owner) && kept(owner),
    decreases owners.len(),
{
    reveal(Seq::filter);
    if owners.len() > 0 {
        let shorter = owners.drop_last();
        let last = owners.last();
        lemma_filtered(shorter, kept, owner);
        assert(owners =~= shorter.push(last));
        let before = shorter.filter(kept);
        let after = owners.filter(kept);
        if owners.contains(owner) && !shorter.contains(owner) {
            let i = choose|i: int| 0 <= i < owners.len() && owners[i] == owner;
            if i < shorter.len() {
                assert(shorter[i] == owner);
            }
            assert(owner == last);
        }
        if shorter.contains(owner) {
            let i = choose|i: int| 0 <= i < shorter.len() && shorter[i] == owner;
            assert(owners[i] == owner);
        }
        if kept(last) {
            assert(after == before.push(last));
            assert(after[before.len() as int] == last);
            if after.contains(owner) && owner != last {
                let i = choose|i: int| 0 <= i < after.len() && after[i] == owner;
                assert(before[i] == owner);
            }
            if before.contains(owner) {
                let i = choose|i: int| 0 <= i < before.len() && before[i] == owner;
                assert(after[i] == owner);
            }
        }
        assert(owners[owners.len() - 1] == last);
    }
}

/// A lease counts its users: each that comes adds one, and each that goes takes
/// one away, until the last removes it.
pub proof fn law_users_are_counted(lease: CountedLease, changes: bool)
    requires
        lease.users < u64::MAX,
    ensures
        lease.acquired(changes).users == lease.users + 1,
        lease.users >= 2 ==> (lease.released() matches Release::Keep(left) && left.users
            == lease.users - 1 && left.restore == lease.restore),
        lease.users <= 1 ==> lease.released() == (Release::Remove { restore: lease.restore }),
        lease.users > 0 ==> lease.acquired(changes).restore == lease.restore,
        lease.users == 0 ==> lease.acquired(changes).restore == changes,
{
}

/// An owner lives exactly where the host, since the same boot, has a process
/// that started when the owner did and has not ended.
pub proof fn law_owners_live_with_their_process(
    owner: OwnerView,
    boot_id: Seq<char>,
    start_time: u64,
    zombie: bool,
)
    ensures
        owner_lives(owner, boot_id, Some(ProcessStat { start_time, zombie })) <==> boot_id
            == owner.host_boot_id && start_time == owner.start_time && !zombie,
        !owner_lives(owner, boot_id, None),
{
}

} // verus!
