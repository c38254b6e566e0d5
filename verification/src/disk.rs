//! Space on the root file system.

use vstd::prelude::*;

use crate::sensors::chars_of;

verus! {

/// The space of one mounted file system, in bytes.
pub struct DiskSpace {
    /// The mount point, as the system displays it.
    pub mount_point: String,
    /// Bytes available to unprivileged users.
    pub available: u64,
    /// Size of the file system.
    pub total: u64,
}

/// Space on the root file system, in bytes.
#[derive(Clone, Copy, Debug, PartialEq, Eq, Structural)]
pub struct RootDiskUsage {
    pub free: u64,
    pub total: u64,
    pub used: u64,
}

/// A mount point that is the root directory as a path: its path components
/// are the root alone, that is a `/` followed only by further separators and
/// `.` components (`/`, `//`, `/.`, `/./` are all the root; `/..` is not).
pub open spec fn names_root(mount: Seq<char>) -> bool {
    &&& mount.len() >= 1
    &&& mount[0] == '/'
    &&& forall|i: int|
        1 <= i < mount.len() ==> #[trigger] mount[i] == '/' || (mount[i] == '.' && mount[i - 1]
            == '/' && (i + 1 == mount.len() || mount[i + 1] == '/'))
}

/// Whether a mount point is the root directory as a path (`names_root`).
pub fn is_root_mount(mount: &str) -> (root: bool)
    ensures
        root == names_root(mount@),
{
    let c = chars_of(mount);
    let n = c.len();
    if n == 0 || c[0] != '/' {
        return false;
    }
    let mut i: usize = 1;
    while i < n
        invariant
            n == c@.len(),
            c@ == mount@,
            1 <= i <= n,
            c@[0] == '/',
            forall|k: int|
                1 <= k < i ==> #[trigger] c@[k] == '/' || (c@[k] == '.' && c@[k - 1] == '/' && (k
                    + 1 == n || c@[k + 1] == '/')),
        decreases n - i,
    {
        let ch = c[i];
        if ch != '/' {
            if ch != '.' || c[i - 1] != '/' || (i + 1 < n && c[i + 1] != '/') {
                assert(!(c@[i as int] == '/' || (c@[i as int] == '.' && c@[i - 1] == '/' && (i
                    + 1 == n || c@[i + 1] == '/'))));
                return false;
            }
        }
        i = i + 1;
    }
    true
}

/// The first disk, in the order listed, whose mount point is the root directory.
pub open spec fn root_disk(disks: Seq<DiskSpace>) -> Option<DiskSpace>
    decreases disks.len(),
{
    if disks.len() == 0 {
        None
    } else if names_root(disks[0].mount_point@) {
        Some(disks[0])
    } else {
        root_disk(disks.drop_first())
    }
}

/// `total - free`, or 0 where free exceeds total.
pub open spec fn saturating_difference(total: u64, free: u64) -> u64 {
    if total >= free {
        (total - free) as u64
    } else {
        0
    }
}

/// The usage of the root file system: the space of the first disk mounted at
/// the root directory, or none at all where no disk is; used space never goes below zero.
pub open spec fn root_usage(disks: Seq<DiskSpace>) -> RootDiskUsage {
    let (free, total) = match root_disk(disks) {
        Some(d) => (d.available, d.total),
        None => (0u64, 0u64),
    };
    RootDiskUsage { free, total, used: saturating_difference(total, free) }
}

/// Computes `root_usage` of the listed disks.
pub fn root_disk_usage(disks: &Vec<DiskSpace>) -> (usage: RootDiskUsage)
    ensures
        usage == root_usage(disks@),
{
    let mut free: u64 = 0;
    let mut total: u64 = 0;
    let mut i: usize = 0;
    assert(disks@.skip(0) =~= disks@);
    while i < disks.len()
        invariant
            free == 0 && total == 0,
            i <= disks@.len(),
            root_disk(disks@) == root_disk(disks@.skip(i as int)),
        decreases disks@.len() - i,
    {
        assert(disks@.skip(i as int)[0] == disks@[i as int]);
        if is_root_mount(disks[i].mount_point.as_str()) {
            free = disks[i].available;
            total = disks[i].total;
            return RootDiskUsage { free, total, used: total.saturating_sub(free) };
        }
        assert(disks@.skip(i as int).drop_first() =~= disks@.skip(i + 1));
        i = i + 1;
    }
    assert(disks@.skip(i as int) =~= Seq::<DiskSpace>::empty());
    RootDiskUsage { free, total, used: total.saturating_sub(free) }
}

/// `root_disk` is the first disk, in the order listed, whose mount point is
/// the root directory, and there is none exactly when no mount point is.
pub proof fn lemma_root_disk_is_first_root_mount(disks: Seq<DiskSpace>)
    ensures
        match root_disk(disks) {
            Some(d) => exists|k: int|
                0 <= k < disks.len() && disks[k] == d && names_root(d.mount_point@) && forall|j: int|
                    0 <= j < k ==> !names_root(#[trigger] disks[j].mount_point@),
            None => forall|k: int| 0 <= k < disks.len() ==> !names_root(#[trigger] disks[k].mount_point@),
        },
    decreases disks.len(),
{
    if disks.len() > 0 && !names_root(disks[0].mount_point@) {
        let rest = disks.drop_first();
        lemma_root_disk_is_first_root_mount(rest);
        match root_disk(rest) {
            Some(d) => {
                let k = choose|k: int|
                    0 <= k < rest.len() && rest[k] == d && names_root(d.mount_point@) && forall|j: int|
                        0 <= j < k ==> !names_root(#[trigger] rest[j].mount_point@);
                assert(disks[k + 1] == d);
                assert forall|j: int| 0 <= j < k + 1 implies !names_root(#[trigger] disks[j].mount_point@) by {
                    if j > 0 {
                        assert(disks[j] == rest[j - 1]);
                    }
                }
            },
            None => {
                assert forall|k: int| 0 <= k < disks.len() implies !names_root(#[trigger] disks[k].mount_point@) by {
                    if k > 0 {
                        assert(disks[k] == rest[k - 1]);
                    }
                }
            },
        }
    } else if disks.len() > 0 {
        assert(disks[0] == disks[0]);
    }
}

/// The reported space adds up: the free and total space are those of the root
/// disk (zero where there is none), and used plus free is total whenever free
/// does not exceed total; otherwise nothing is used.
pub proof fn lemma_root_usage_adds_up(disks: Seq<DiskSpace>)
    ensures
        match root_disk(disks) {
            Some(d) => root_usage(disks).free == d.available && root_usage(disks).total == d.total,
            None => root_usage(disks).free == 0 && root_usage(disks).total == 0,
        },
        root_usage(disks).free <= root_usage(disks).total ==> root_usage(disks).used
            + root_usage(disks).free == root_usage(disks).total,
        root_usage(disks).free > root_usage(disks).total ==> root_usage(disks).used == 0,
{
}

} // verus!
