//! Placement of the live boot partition in the free space of a disk.
use vstd::prelude::*;
use crate::models::{InstallPlan, Partition};

verus! {

/// Room kept after the boot partition for the Microsoft Reserved partition.
pub const MSR_RESERVE_BYTES: u64 = 16 * 1024 * 1024;

/// Partition alignment.
pub const PARTITION_ALIGNMENT_BYTES: u64 = 1024 * 1024;

/// Extra room every placement needs besides the partitions themselves.
pub const TOTAL_PLACEMENT_OVERHEAD_BYTES: u64 = MSR_RESERVE_BYTES + PARTITION_ALIGNMENT_BYTES;

/// A run of unallocated bytes `[start, end)` of `size` bytes.
#[derive(Debug, Clone, Copy, PartialEq, Eq, Structural)]
pub struct Gap {
    pub start: u64,
    pub end: u64,
    pub size: u64,
}

/// Where the scan stands before partition `i`: the end of partition `i - 1`
/// (or 0 before the first one).
pub open spec fn prev_end(parts: Seq<Partition>, i: int) -> int {
    if i <= 0 {
        0
    } else {
        parts[i - 1].offset_bytes + parts[i - 1].size_bytes
    }
}

/// The gap `[from, to)` when it is larger than one alignment unit.
pub open spec fn gap_between(from: int, to: int) -> Seq<Gap> {
    if to > from && to - from > PARTITION_ALIGNMENT_BYTES {
        seq![Gap { start: from as u64, end: to as u64, size: (to - from) as u64 }]
    } else {
        Seq::empty()
    }
}

/// The gaps found before each of the first `n` partitions.
pub open spec fn gaps_before(parts: Seq<Partition>, n: int) -> Seq<Gap>
    decreases n,
{
    if n <= 0 {
        Seq::empty()
    } else {
        gaps_before(parts, n - 1) + gap_between(prev_end(parts, n - 1), parts[n - 1].offset_bytes as int)
    }
}

/// All gaps of the disk: between consecutive partitions (in list order) and
/// after the last one.
pub open spec fn all_gaps(disk_size: u64, parts: Seq<Partition>) -> Seq<Gap> {
    gaps_before(parts, parts.len() as int) + gap_between(prev_end(parts, parts.len() as int), disk_size as int)
}

/// The gaps of `s` with at least `min` bytes, in order.
pub open spec fn usable(s: Seq<Gap>, min: int) -> Seq<Gap>
    decreases s.len(),
{
    if s.len() == 0 {
        Seq::empty()
    } else {
        let rest = usable(s.drop_last(), min);
        if s.last().size >= min {
            rest.push(s.last())
        } else {
            rest
        }
    }
}

/// Whether `g` starts within one alignment unit of `anchor` (bounds
/// saturated at the ends of the `u64` range).
pub open spec fn near_anchor(g: Gap, anchor: u64) -> bool {
    let lo = if anchor >= PARTITION_ALIGNMENT_BYTES { anchor - PARTITION_ALIGNMENT_BYTES } else { 0 };
    let hi = if anchor + PARTITION_ALIGNMENT_BYTES <= u64::MAX { anchor + PARTITION_ALIGNMENT_BYTES } else { u64::MAX as int };
    lo <= g.start <= hi
}

/// The first gap of `s` near `anchor`.
pub open spec fn first_near(s: Seq<Gap>, anchor: u64) -> Option<Gap>
    decreases s.len(),
{
    if s.len() == 0 {
        None
    } else {
        match first_near(s.drop_last(), anchor) {
            Some(g) => Some(g),
            None => if near_anchor(s.last(), anchor) {
                Some(s.last())
            } else {
                None
            },
        }
    }
}

/// The largest gap of `s` starting at or after `anchor`; of equally large
/// gaps, the last one.
pub open spec fn largest_after(s: Seq<Gap>, anchor: u64) -> Option<Gap>
    decreases s.len(),
{
    if s.len() == 0 {
        None
    } else {
        let best = largest_after(s.drop_last(), anchor);
        let g = s.last();
        if g.start >= anchor {
            match best {
                None => Some(g),
                Some(b) => if g.size >= b.size {
                    Some(g)
                } else {
                    Some(b)
                },
            }
        } else {
            best
        }
    }
}

/// The plan that places nothing.
pub open spec fn no_plan() -> InstallPlan {
    InstallPlan {
        has_boot_space: false,
        has_requested_linux_space: false,
        boot_partition_offset_bytes: 0,
        linux_space_bytes: 0,
    }
}

/// The aligned offset of a boot partition of `boot_bytes` placed at the end
/// of gap `g`, before the reserve.
pub open spec fn boot_offset_in(g: Gap, boot_bytes: u64) -> int {
    let boot_end = if g.end >= MSR_RESERVE_BYTES { g.end - MSR_RESERVE_BYTES } else { 0 };
    let raw = if boot_end >= boot_bytes { boot_end - boot_bytes } else { 0 };
    (raw / (PARTITION_ALIGNMENT_BYTES as int)) * (PARTITION_ALIGNMENT_BYTES as int)
}

/// The plan for gap `g`.
pub open spec fn plan_in_gap(g: Gap, boot_bytes: u64, linux_bytes: u64) -> InstallPlan {
    let off = boot_offset_in(g, boot_bytes);
    if off < g.start + PARTITION_ALIGNMENT_BYTES {
        no_plan()
    } else {
        InstallPlan {
            has_boot_space: true,
            has_requested_linux_space: off - g.start >= linux_bytes,
            boot_partition_offset_bytes: off as u64,
            linux_space_bytes: (off - g.start) as u64,
        }
    }
}

/// The gap chosen for the boot partition: one that starts next to the
/// anchor, else the largest one after it.
pub open spec fn chosen_gap(disk_size: u64, parts: Seq<Partition>, anchor: u64, boot_bytes: u64) -> Option<Gap> {
    let u = usable(all_gaps(disk_size, parts), boot_bytes + TOTAL_PLACEMENT_OVERHEAD_BYTES);
    match first_near(u, anchor) {
        Some(g) => Some(g),
        None => largest_after(u, anchor),
    }
}

/// The contiguous install plan for a boot partition of `boot_bytes` and a
/// Linux area of `linux_bytes`.
pub open spec fn contiguous_plan(
    disk_size: u64,
    parts: Seq<Partition>,
    anchor: u64,
    boot_bytes: u64,
    linux_bytes: u64,
) -> InstallPlan {
    match chosen_gap(disk_size, parts, anchor, boot_bytes) {
        Some(g) => plan_in_gap(g, boot_bytes, linux_bytes),
        None => no_plan(),
    }
}

/// Partition ends are representable: no offset plus size exceeds `u64::MAX`.
pub open spec fn ends_fit(parts: Seq<Partition>) -> bool {
    forall|i: int| 0 <= i < parts.len() ==> (#[trigger] parts[i]).offset_bytes + parts[i].size_bytes <= u64::MAX
}

/// Whether every gap of `s` has `size == end - start`.
pub open spec fn well_formed_gaps(s: Seq<Gap>) -> bool {
    forall|i: int| 0 <= i < s.len() ==> (#[trigger] s[i]).end == s[i].start + s[i].size
}

/// The gap to add after scanning up to `to`.
fn push_gap(gaps: &mut Vec<Gap>, from: u64, to: u64)
    ensures
        final(gaps)@ == old(gaps)@ + gap_between(from as int, to as int),
{
    if to > from {
        let gap_size = to - from;
        if gap_size > PARTITION_ALIGNMENT_BYTES {
            gaps.push(Gap { start: from, end: to, size: gap_size });
            return;
        }
    }
    assert(old(gaps)@ + gap_between(from as int, to as int) == old(gaps)@);
}

/// Lists the gaps of the disk.
fn collect_gaps(disk_size_bytes: u64, partitions: &[Partition]) -> (r: Vec<Gap>)
    requires
        ends_fit(partitions@),
    ensures
        r@ == all_gaps(disk_size_bytes, partitions@),
{
    let mut gaps: Vec<Gap> = Vec::new();
    let mut prev: u64 = 0;
    let mut i: usize = 0;
    while i < partitions.len()
        invariant
            i <= partitions@.len(),
            ends_fit(partitions@),
            prev == prev_end(partitions@, i as int),
            gaps@ == gaps_before(partitions@, i as int),
        decreases partitions.len() - i,
    {
        let part = &partitions[i];
        push_gap(&mut gaps, prev, part.offset_bytes);
        assert(partitions@[i as int].offset_bytes + partitions@[i as int].size_bytes <= u64::MAX);
        prev = part.offset_bytes + part.size_bytes;
        i = i + 1;
    }
    push_gap(&mut gaps, prev, disk_size_bytes);
    gaps
}

proof fn lemma_gaps_before_well_formed(parts: Seq<Partition>, n: int)
    requires
        0 <= n <= parts.len(),
        ends_fit(parts),
    ensures
        well_formed_gaps(gaps_before(parts, n)),
    decreases n,
{
    if n > 0 {
        lemma_gaps_before_well_formed(parts, n - 1);
        if n >= 2 {
            assert(parts[n - 2].offset_bytes + parts[n - 2].size_bytes <= u64::MAX);
        }
        let a = gaps_before(parts, n - 1);
        let b = gap_between(prev_end(parts, n - 1), parts[n - 1].offset_bytes as int);
        assert forall|i: int| 0 <= i < (a + b).len() implies (#[trigger] (a + b)[i]).end == (a + b)[i].start + (a + b)[i].size by {
            if i < a.len() {
                assert((a + b)[i] == a[i]);
            } else {
                assert((a + b)[i] == b[i - a.len()]);
            }
        }
    }
}

proof fn lemma_gaps_well_formed(parts: Seq<Partition>, disk: u64)
    requires
        ends_fit(parts),
    ensures
        well_formed_gaps(all_gaps(disk, parts)),
{
    lemma_gaps_before_well_formed(parts, parts.len() as int);
    if parts.len() > 0 {
        assert(parts[parts.len() - 1].offset_bytes + parts[parts.len() - 1].size_bytes <= u64::MAX);
    }
    let a = gaps_before(parts, parts.len() as int);
    let b = gap_between(prev_end(parts, parts.len() as int), disk as int);
    assert forall|i: int| 0 <= i < (a + b).len() implies (#[trigger] (a + b)[i]).end == (a + b)[i].start + (a + b)[i].size by {
        if i < a.len() {
            assert((a + b)[i] == a[i]);
        } else {
            assert((a + b)[i] == b[i - a.len()]);
        }
    }
}

/// The plan computation shared by both unit conventions.
fn plan_for_bytes(
    disk_size_bytes: u64,
    partitions: &[Partition],
    anchor_end_bytes: u64,
    boot_size_bytes: u64,
    requested_linux_bytes: u64,
) -> (r: InstallPlan)
    requires
        ends_fit(partitions@),
        boot_size_bytes + TOTAL_PLACEMENT_OVERHEAD_BYTES <= u64::MAX,
    ensures
        r == contiguous_plan(disk_size_bytes, partitions@, anchor_end_bytes, boot_size_bytes, requested_linux_bytes),
{
    let gaps = collect_gaps(disk_size_bytes, partitions);
    proof {
        lemma_gaps_well_formed(partitions@, disk_size_bytes);
    }
    let min_gap_required = boot_size_bytes + TOTAL_PLACEMENT_OVERHEAD_BYTES;
    let mut usable_gaps: Vec<Gap> = Vec::new();
    let mut i: usize = 0;
    while i < gaps.len()
        invariant
            i <= gaps@.len(),
            usable_gaps@ == usable(gaps@.take(i as int), min_gap_required as int),
        decreases gaps.len() - i,
    {
        assert(gaps@.take(i + 1).drop_last() == gaps@.take(i as int));
        if gaps[i].size >= min_gap_required {
            usable_gaps.push(gaps[i]);
        }
        i = i + 1;
    }
    assert(gaps@.take(gaps@.len() as int) == gaps@);
    let ghost u = usable_gaps@;
    let result = InstallPlan {
        has_boot_space: false,
        has_requested_linux_space: false,
        boot_partition_offset_bytes: 0,
        linux_space_bytes: 0,
    };
    if usable_gaps.len() == 0 {
        return result;
    }
    let lower_bound = anchor_end_bytes.saturating_sub(PARTITION_ALIGNMENT_BYTES);
    let upper_bound = anchor_end_bytes.saturating_add(PARTITION_ALIGNMENT_BYTES);
    let mut near: Option<Gap> = None;
    let mut j: usize = 0;
    while j < usable_gaps.len() && near.is_none()
        invariant
            j <= u.len(),
            u == usable_gaps@,
            near == first_near(u.take(j as int), anchor_end_bytes),
            lower_bound == (if anchor_end_bytes >= PARTITION_ALIGNMENT_BYTES { anchor_end_bytes - PARTITION_ALIGNMENT_BYTES } else { 0 }),
            upper_bound == (if anchor_end_bytes + PARTITION_ALIGNMENT_BYTES <= u64::MAX { anchor_end_bytes + PARTITION_ALIGNMENT_BYTES } else { u64::MAX as int }),
        decreases u.len() - j,
    {
        assert(u.take(j + 1).drop_last() == u.take(j as int));
        let g = usable_gaps[j];
        if g.start >= lower_bound && g.start <= upper_bound {
            near = Some(g);
        }
        j = j + 1;
    }
    proof {
        if near is Some {
            lemma_first_near_stable(u, anchor_end_bytes, j as int, u.len() as int);
        }
        assert(u.take(u.len() as int) == u);
    }
    let chosen: Option<Gap> = match near {
        Some(g) => Some(g),
        None => {
            let mut best: Option<Gap> = None;
            let mut k: usize = 0;
            while k < usable_gaps.len()
                invariant
                    k <= u.len(),
                    u == usable_gaps@,
                    best == largest_after(u.take(k as int), anchor_end_bytes),
                decreases u.len() - k,
            {
                assert(u.take(k + 1).drop_last() == u.take(k as int));
                let g = usable_gaps[k];
                if g.start >= anchor_end_bytes {
                    best = match best {
                        None => Some(g),
                        Some(b) => if g.size >= b.size {
                            Some(g)
                        } else {
                            Some(b)
                        },
                    };
                }
                k = k + 1;
            }
            assert(u.take(u.len() as int) == u);
            best
        },
    };
    let chosen_gap = match chosen {
        Some(g) => g,
        None => {
            return result;
        },
    };
    proof {
        lemma_usable_members(gaps@, min_gap_required as int);
        lemma_choice_in(u, anchor_end_bytes);
    }
    let boot_end = chosen_gap.end.saturating_sub(MSR_RESERVE_BYTES);
    let raw_boot_offset = boot_end.saturating_sub(boot_size_bytes);
    let boot_partition_offset = (raw_boot_offset / PARTITION_ALIGNMENT_BYTES) * PARTITION_ALIGNMENT_BYTES;
    if boot_partition_offset < chosen_gap.start + PARTITION_ALIGNMENT_BYTES {
        return result;
    }
    let linux_space = boot_partition_offset - chosen_gap.start;
    InstallPlan {
        has_boot_space: true,
        has_requested_linux_space: linux_space >= requested_linux_bytes,
        boot_partition_offset_bytes: boot_partition_offset,
        linux_space_bytes: linux_space,
    }
}

proof fn lemma_first_near_stable(u: Seq<Gap>, anchor: u64, j: int, k: int)
    requires
        0 <= j <= k <= u.len(),
        first_near(u.take(j), anchor) is Some,
    ensures
        first_near(u.take(k), anchor) == first_near(u.take(j), anchor),
    decreases k - j,
{
    if k > j {
        lemma_first_near_stable(u, anchor, j, k - 1);
        assert(u.take(k).drop_last() == u.take(k - 1));
    }
}

/// Every member of `usable(s, min)` is a member of `s` with at least `min` bytes.
proof fn lemma_usable_members(s: Seq<Gap>, min: int)
    ensures
        forall|i: int| 0 <= i < usable(s, min).len() ==> s.contains(#[trigger] usable(s, min)[i]) && usable(s, min)[i].size >= min,
    decreases s.len(),
{
    if s.len() > 0 {
        lemma_usable_members(s.drop_last(), min);
        let rest = usable(s.drop_last(), min);
        assert forall|i: int| 0 <= i < usable(s, min).len() implies s.contains(#[trigger] usable(s, min)[i]) && usable(s, min)[i].size >= min by {
            if i < rest.len() {
                assert(usable(s, min)[i] == rest[i]);
                assert(s.drop_last().contains(rest[i]));
                let k = choose|k: int| 0 <= k < s.drop_last().len() && s.drop_last()[k] == rest[i];
                assert(s[k] == rest[i]);
            } else {
                assert(s[s.len() - 1] == s.last());
            }
        }
    }
}

/// The chosen gap is a member of the list it was chosen from.
proof fn lemma_choice_in(u: Seq<Gap>, anchor: u64)
    ensures
        first_near(u, anchor) matches Some(g) ==> u.contains(g),
        largest_after(u, anchor) matches Some(g) ==> u.contains(g),
    decreases u.len(),
{
    if u.len() > 0 {
        lemma_choice_in(u.drop_last(), anchor);
        let p = u.drop_last();
        if let Some(g) = first_near(p, anchor) {
            let k = choose|k: int| 0 <= k < p.len() && p[k] == g;
            assert(u[k] == g);
        }
        if let Some(g) = largest_after(p, anchor) {
            let k = choose|k: int| 0 <= k < p.len() && p[k] == g;
            assert(u[k] == g);
        }
        assert(u[u.len() - 1] == u.last());
    }
}

/// Mebibytes to bytes.
pub open spec fn mib(n: u32) -> int {
    n as int * 0x10_0000
}

/// Gibibytes to bytes.
pub open spec fn gib(n: u32) -> int {
    n as int * 0x4000_0000
}

/// Namespace of the placement computations, in mebibytes.
pub struct PartitionPlanner;

impl PartitionPlanner {
    /// How much the Windows partition must shrink to hold a Linux area and a
    /// boot partition (both in MiB), plus the placement overhead.
    pub fn calculate_required_shrink_bytes(linux_size_mb: u32, boot_size_mb: u32) -> (r: u64)
        ensures
            r == mib(linux_size_mb) + mib(boot_size_mb) + TOTAL_PLACEMENT_OVERHEAD_BYTES,
    {
        let mb_to_bytes: u64 = 1024 * 1024;
        let linux_bytes = (linux_size_mb as u64) * mb_to_bytes;
        let boot_bytes = (boot_size_mb as u64) * mb_to_bytes;
        linux_bytes + boot_bytes + TOTAL_PLACEMENT_OVERHEAD_BYTES
    }

    /// Finds where a boot partition of `boot_size_mb` MiB can go: the usable
    /// gap that starts within 1 MiB of `anchor_end_bytes`, else the largest
    /// usable gap after it; the partition is aligned down at the end of the
    /// gap, before the reserve, and the room before it is the Linux space.
    pub fn get_contiguous_install_plan(
        disk_size_bytes: u64,
        partitions: &[Partition],
        anchor_end_bytes: u64,
        boot_size_mb: u32,
        linux_size_mb: u32,
    ) -> (r: InstallPlan)
        requires
            ends_fit(partitions@),
        ensures
            r == contiguous_plan(
                disk_size_bytes,
                partitions@,
                anchor_end_bytes,
                mib(boot_size_mb) as u64,
                mib(linux_size_mb) as u64,
            ),
    {
        let boot_size_bytes = (boot_size_mb as u64) * 1024 * 1024;
        let requested_linux_bytes = (linux_size_mb as u64) * 1024 * 1024;
        plan_for_bytes(disk_size_bytes, partitions, anchor_end_bytes, boot_size_bytes, requested_linux_bytes)
    }
}

/// How much the Windows partition must shrink to hold a Linux area and a
/// boot partition (both in GiB), plus the placement overhead.
pub fn calculate_required_shrink_bytes(linux_size_gb: u32, boot_size_gb: u32) -> (r: u64)
    ensures
        r == gib(linux_size_gb) + gib(boot_size_gb) + TOTAL_PLACEMENT_OVERHEAD_BYTES,
{
    let gb_to_bytes: u64 = 1024 * 1024 * 1024;
    let linux_bytes = (linux_size_gb as u64) * gb_to_bytes;
    let boot_bytes = (boot_size_gb as u64) * gb_to_bytes;
    linux_bytes + boot_bytes + TOTAL_PLACEMENT_OVERHEAD_BYTES
}

/// `PartitionPlanner::get_contiguous_install_plan` with sizes in GiB.
pub fn get_contiguous_install_plan(
    disk_size_bytes: u64,
    partitions: &[Partition],
    anchor_end_bytes: u64,
    boot_size_gb: u32,
    linux_size_gb: u32,
) -> (r: InstallPlan)
    requires
        ends_fit(partitions@),
    ensures
        r == contiguous_plan(
            disk_size_bytes,
            partitions@,
            anchor_end_bytes,
            gib(boot_size_gb) as u64,
            gib(linux_size_gb) as u64,
        ),
{
    let boot_size_bytes = (boot_size_gb as u64) * 1024 * 1024 * 1024;
    let requested_linux_bytes = (linux_size_gb as u64) * 1024 * 1024 * 1024;
    plan_for_bytes(disk_size_bytes, partitions, anchor_end_bytes, boot_size_bytes, requested_linux_bytes)
}


/// A plan either places nothing (all fields zero) or places an aligned boot
/// partition, followed by the reserve, inside one free gap of the disk with at
/// least one alignment unit of Linux space before it; the reported Linux space
/// is exactly the room between the gap start and the boot partition.
pub proof fn lemma_plan_fits_in_a_gap(
    disk_size: u64,
    parts: Seq<Partition>,
    anchor: u64,
    boot_bytes: u64,
    linux_bytes: u64,
)
    requires
        ends_fit(parts),
        boot_bytes + TOTAL_PLACEMENT_OVERHEAD_BYTES <= u64::MAX,
    ensures
        ({
            let p = contiguous_plan(disk_size, parts, anchor, boot_bytes, linux_bytes);
            &&& !p.has_boot_space ==> p == no_plan()
            &&& p.has_boot_space ==> exists|g: Gap| {
                &&& #[trigger] all_gaps(disk_size, parts).contains(g)
                &&& g.size >= boot_bytes + TOTAL_PLACEMENT_OVERHEAD_BYTES
                &&& g.start + PARTITION_ALIGNMENT_BYTES <= p.boot_partition_offset_bytes
                &&& p.boot_partition_offset_bytes + boot_bytes + MSR_RESERVE_BYTES <= g.end
                &&& p.boot_partition_offset_bytes % PARTITION_ALIGNMENT_BYTES == 0
                &&& p.linux_space_bytes == p.boot_partition_offset_bytes - g.start
                &&& p.has_requested_linux_space == (p.linux_space_bytes >= linux_bytes)
            }
        }),
{
    let all = all_gaps(disk_size, parts);
    let min = boot_bytes + TOTAL_PLACEMENT_OVERHEAD_BYTES;
    let u = usable(all, min as int);
    lemma_gaps_well_formed(parts, disk_size);
    lemma_usable_members(all, min as int);
    lemma_choice_in(u, anchor);
    let p = contiguous_plan(disk_size, parts, anchor, boot_bytes, linux_bytes);
    match chosen_gap(disk_size, parts, anchor, boot_bytes) {
        Some(g) => {
            assert(u.contains(g));
            let i = choose|i: int| 0 <= i < u.len() && u[i] == g;
            assert(all.contains(u[i]) && u[i].size >= min);
            let k = choose|k: int| 0 <= k < all.len() && all[k] == g;
            assert(g.end == g.start + g.size);
            let off = boot_offset_in(g, boot_bytes);
            let boot_end = g.end - MSR_RESERVE_BYTES;
            let raw = boot_end - boot_bytes;
            assert(off <= raw) by {
                vstd::arithmetic::div_mod::lemma_fundamental_div_mod(raw, PARTITION_ALIGNMENT_BYTES as int);
            }
            assert(off % (PARTITION_ALIGNMENT_BYTES as int) == 0) by {
                vstd::arithmetic::div_mod::lemma_mod_multiples_basic(raw / (PARTITION_ALIGNMENT_BYTES as int), PARTITION_ALIGNMENT_BYTES as int);
            }
            if p.has_boot_space {
                assert(all.contains(g) && g.size >= min);
            }
        },
        None => {},
    }
}

/// Planning with sizes in GiB is planning with the same sizes in MiB,
/// 1024 times larger (for sizes whose MiB count fits in `u32`).
pub proof fn lemma_gib_plans_as_mib(
    disk_size: u64,
    parts: Seq<Partition>,
    anchor: u64,
    boot_size_gb: u32,
    linux_size_gb: u32,
)
    requires
        boot_size_gb <= 4194303,
        linux_size_gb <= 4194303,
    ensures
        contiguous_plan(disk_size, parts, anchor, gib(boot_size_gb) as u64, gib(linux_size_gb) as u64)
            == contiguous_plan(
            disk_size,
            parts,
            anchor,
            mib((boot_size_gb * 1024) as u32) as u64,
            mib((linux_size_gb * 1024) as u32) as u64,
        ),
        gib(linux_size_gb) == mib((linux_size_gb * 1024) as u32),
        gib(boot_size_gb) == mib((boot_size_gb * 1024) as u32),
{
}


/// Where partition `p` ends.
pub open spec fn part_end(p: Partition) -> int {
    p.offset_bytes + p.size_bytes
}

/// Each partition ends at or before the next one in the list begins: the
/// list is sorted by offset and no two partitions overlap.
pub open spec fn sorted_disjoint(parts: Seq<Partition>) -> bool {
    forall|i: int, j: int| #![trigger parts[i], parts[j]] 0 <= i < j < parts.len() ==> part_end(parts[i]) <= parts[j].offset_bytes
}

/// Every partition ends within the disk.
pub open spec fn within_disk(parts: Seq<Partition>, disk_size: u64) -> bool {
    forall|i: int| 0 <= i < parts.len() ==> part_end(#[trigger] parts[i]) <= disk_size
}

/// No partition overlaps the byte range `[a, b)`.
pub open spec fn free_span(parts: Seq<Partition>, a: int, b: int) -> bool {
    forall|i: int| 0 <= i < parts.len() ==> b <= (#[trigger] parts[i]).offset_bytes || part_end(parts[i]) <= a
}

/// Whether `x` is the start of the disk or the end of some partition.
pub open spec fn is_boundary(parts: Seq<Partition>, x: int) -> bool {
    x == 0 || exists|i: int| 0 <= i < parts.len() && part_end(#[trigger] parts[i]) == x
}

/// Where the scan slot `k` ends: at partition `k`, or at the end of the
/// disk after the last partition.
pub open spec fn slot_end(parts: Seq<Partition>, disk_size: u64, k: int) -> int {
    if k < parts.len() {
        parts[k].offset_bytes as int
    } else {
        disk_size as int
    }
}

/// Each gap found before the first `n` partitions is the room between the
/// end of some partition `k - 1` (or the disk start) and partition `k`.
proof fn lemma_gaps_before_members(parts: Seq<Partition>, n: int)
    requires
        0 <= n <= parts.len(),
        ends_fit(parts),
    ensures
        forall|g: Gap| #[trigger] gaps_before(parts, n).contains(g) ==> exists|k: int|
            0 <= k < n && g.start == #[trigger] prev_end(parts, k) && g.end == parts[k].offset_bytes
                && g.end > g.start,
    decreases n,
{
    if n > 0 {
        lemma_gaps_before_members(parts, n - 1);
        let a = gaps_before(parts, n - 1);
        let b = gap_between(prev_end(parts, n - 1), parts[n - 1].offset_bytes as int);
        if n >= 2 {
            assert(parts[n - 2].offset_bytes + parts[n - 2].size_bytes <= u64::MAX);
        }
        assert forall|g: Gap| #[trigger] gaps_before(parts, n).contains(g) implies exists|k: int|
            0 <= k < n && g.start == #[trigger] prev_end(parts, k) && g.end == parts[k].offset_bytes
                && g.end > g.start by {
            let idx = choose|idx: int| 0 <= idx < (a + b).len() && (a + b)[idx] == g;
            if idx < a.len() {
                assert(a[idx] == g);
                assert(a.contains(g));
            } else {
                assert(b[idx - a.len()] == g);
                assert(g.start == prev_end(parts, n - 1));
            }
        }
    }
}

/// Each gap of the disk is the room of some scan slot.
proof fn lemma_all_gaps_members(parts: Seq<Partition>, disk_size: u64, g: Gap)
    requires
        ends_fit(parts),
        all_gaps(disk_size, parts).contains(g),
    ensures
        exists|k: int| 0 <= k <= parts.len() && g.start == #[trigger] prev_end(parts, k) && g.end == slot_end(parts, disk_size, k),
{
    let n = parts.len() as int;
    let a = gaps_before(parts, n);
    let b = gap_between(prev_end(parts, n), disk_size as int);
    lemma_gaps_before_members(parts, n);
    if n >= 1 {
        assert(parts[n - 1].offset_bytes + parts[n - 1].size_bytes <= u64::MAX);
    }
    let idx = choose|idx: int| 0 <= idx < (a + b).len() && (a + b)[idx] == g;
    if idx < a.len() {
        assert(a[idx] == g);
        assert(a.contains(g));
        let k = choose|k: int| 0 <= k < n && g.start == #[trigger] prev_end(parts, k) && g.end == parts[k].offset_bytes && g.end > g.start;
        assert(slot_end(parts, disk_size, k) == parts[k].offset_bytes);
    } else {
        assert(b[idx - a.len()] == g);
        assert(slot_end(parts, disk_size, n) == disk_size);
    }
}

/// The room of every scan slot of a sorted list of disjoint partitions is
/// free, starts at a boundary and ends within the disk.
proof fn lemma_slot_free(parts: Seq<Partition>, disk_size: u64, k: int)
    requires
        sorted_disjoint(parts),
        within_disk(parts, disk_size),
        0 <= k <= parts.len(),
    ensures
        free_span(parts, prev_end(parts, k), slot_end(parts, disk_size, k)),
        is_boundary(parts, prev_end(parts, k)),
        slot_end(parts, disk_size, k) <= disk_size,
{
    let n = parts.len() as int;
    assert forall|i: int| 0 <= i < n implies slot_end(parts, disk_size, k) <= (#[trigger] parts[i]).offset_bytes
        || part_end(parts[i]) <= prev_end(parts, k) by {
        if i < k {
            if i < k - 1 {
                assert(part_end(parts[i]) <= parts[k - 1].offset_bytes);
            }
        } else {
            if i > k {
                assert(part_end(parts[k]) <= parts[i].offset_bytes);
            }
        }
    }
    if k > 0 {
        assert(part_end(parts[k - 1]) == prev_end(parts, k));
    }
    if k < n {
        assert(part_end(parts[k]) <= disk_size);
    }
}

/// A plan over a sorted list of disjoint partitions that all end within the
/// disk touches no partition: the room from the start of its Linux space
/// (the disk start or a partition's end) to the end of the boot partition
/// and its reserve is free and ends within the disk.
pub proof fn lemma_plan_leaves_partitions_alone(
    disk_size: u64,
    parts: Seq<Partition>,
    anchor: u64,
    boot_bytes: u64,
    linux_bytes: u64,
)
    requires
        sorted_disjoint(parts),
        within_disk(parts, disk_size),
        boot_bytes + TOTAL_PLACEMENT_OVERHEAD_BYTES <= u64::MAX,
    ensures
        ({
            let p = contiguous_plan(disk_size, parts, anchor, boot_bytes, linux_bytes);
            let s = p.boot_partition_offset_bytes - p.linux_space_bytes;
            let e = p.boot_partition_offset_bytes + boot_bytes + MSR_RESERVE_BYTES;
            p.has_boot_space ==> is_boundary(parts, s) && free_span(parts, s, e) && e <= disk_size
        }),
{
    assert(ends_fit(parts)) by {
        assert forall|i: int| 0 <= i < parts.len() implies (#[trigger] parts[i]).offset_bytes + parts[i].size_bytes
            <= u64::MAX by {
            assert(part_end(parts[i]) <= disk_size);
        }
    }
    lemma_plan_fits_in_a_gap(disk_size, parts, anchor, boot_bytes, linux_bytes);
    let p = contiguous_plan(disk_size, parts, anchor, boot_bytes, linux_bytes);
    if p.has_boot_space {
        let g = choose|g: Gap| {
            &&& #[trigger] all_gaps(disk_size, parts).contains(g)
            &&& g.size >= boot_bytes + TOTAL_PLACEMENT_OVERHEAD_BYTES
            &&& g.start + PARTITION_ALIGNMENT_BYTES <= p.boot_partition_offset_bytes
            &&& p.boot_partition_offset_bytes + boot_bytes + MSR_RESERVE_BYTES <= g.end
            &&& p.boot_partition_offset_bytes % PARTITION_ALIGNMENT_BYTES == 0
            &&& p.linux_space_bytes == p.boot_partition_offset_bytes - g.start
            &&& p.has_requested_linux_space == (p.linux_space_bytes >= linux_bytes)
        };
        lemma_all_gaps_members(parts, disk_size, g);
        let k = choose|k: int| 0 <= k <= parts.len() && g.start == #[trigger] prev_end(parts, k) && g.end == slot_end(parts, disk_size, k);
        lemma_slot_free(parts, disk_size, k);
    }
}


/// The first partition from index `k` on that starts at or after `bound`
/// (or the number of partitions when none does).
pub open spec fn first_from(parts: Seq<Partition>, bound: int, k: int) -> int
    decreases parts.len() - k,
{
    if k >= parts.len() || parts[k].offset_bytes >= bound {
        k
    } else {
        first_from(parts, bound, k + 1)
    }
}

proof fn lemma_first_from(parts: Seq<Partition>, bound: int, k: int)
    requires
        0 <= k <= parts.len(),
    ensures
        k <= first_from(parts, bound, k) <= parts.len(),
        forall|i: int| k <= i < first_from(parts, bound, k) ==> (#[trigger] parts[i]).offset_bytes < bound,
        first_from(parts, bound, k) < parts.len() ==> parts[first_from(parts, bound, k)].offset_bytes >= bound,
    decreases parts.len() - k,
{
    if k < parts.len() && parts[k].offset_bytes < bound {
        lemma_first_from(parts, bound, k + 1);
    }
}

/// The gaps before the first `m` partitions begin the gaps before the
/// first `n`.
proof fn lemma_gaps_before_prefix(parts: Seq<Partition>, m: int, n: int)
    requires
        0 <= m <= n <= parts.len(),
    ensures
        exists|t: Seq<Gap>| gaps_before(parts, n) == gaps_before(parts, m) + t,
    decreases n - m,
{
    if m == n {
        assert(gaps_before(parts, n) == gaps_before(parts, m) + Seq::<Gap>::empty());
    } else {
        lemma_gaps_before_prefix(parts, m, n - 1);
        let t = choose|t: Seq<Gap>| gaps_before(parts, n - 1) == gaps_before(parts, m) + t;
        let last = gap_between(prev_end(parts, n - 1), parts[n - 1].offset_bytes as int);
        assert(gaps_before(parts, n) == gaps_before(parts, m) + (t + last));
    }
}

proof fn lemma_usable_append(a: Seq<Gap>, b: Seq<Gap>, min: int)
    ensures
        usable(a + b, min) == usable(a, min) + usable(b, min),
    decreases b.len(),
{
    if b.len() == 0 {
        assert(a + b == a);
        assert(usable(a, min) + usable(b, min) == usable(a, min));
    } else {
        lemma_usable_append(a, b.drop_last(), min);
        assert((a + b).drop_last() == a + b.drop_last());
        assert((a + b).last() == b.last());
    }
}

proof fn lemma_first_near_append(a: Seq<Gap>, b: Seq<Gap>, anchor: u64)
    ensures
        first_near(a + b, anchor) == match first_near(a, anchor) {
            Some(g) => Some(g),
            None => first_near(b, anchor),
        },
    decreases b.len(),
{
    if b.len() == 0 {
        assert(a + b == a);
    } else {
        lemma_first_near_append(a, b.drop_last(), anchor);
        assert((a + b).drop_last() == a + b.drop_last());
        assert((a + b).last() == b.last());
    }
}

proof fn lemma_first_near_none(s: Seq<Gap>, anchor: u64)
    requires
        forall|i: int| 0 <= i < s.len() ==> !near_anchor(#[trigger] s[i], anchor),
    ensures
        first_near(s, anchor) is None,
    decreases s.len(),
{
    if s.len() > 0 {
        assert forall|i: int| 0 <= i < s.drop_last().len() implies !near_anchor(#[trigger] s.drop_last()[i], anchor) by {
            assert(s.drop_last()[i] == s[i]);
        }
        lemma_first_near_none(s.drop_last(), anchor);
        assert(s.last() == s[s.len() - 1]);
    }
}

/// The scan slot that starts at the anchor, when the anchor is a boundary
/// and `room` bytes after it are free: every partition before it ends by
/// the anchor, and its room reaches past the free bytes.
proof fn lemma_anchor_slot(parts: Seq<Partition>, disk_size: u64, anchor: u64, room: int) -> (k0: int)
    requires
        sorted_disjoint(parts),
        within_disk(parts, disk_size),
        is_boundary(parts, anchor as int),
        room > 0,
        anchor + room <= disk_size,
        free_span(parts, anchor as int, anchor + room),
    ensures
        0 <= k0 <= parts.len(),
        prev_end(parts, k0) == anchor,
        slot_end(parts, disk_size, k0) >= anchor + room,
        forall|i: int| 0 <= i < k0 ==> part_end(#[trigger] parts[i]) <= anchor,
{
    let n = parts.len() as int;
    let bound: int = anchor + room;
    lemma_first_from(parts, bound, 0);
    let k0 = first_from(parts, bound, 0);
    assert forall|i: int| 0 <= i < k0 implies part_end(#[trigger] parts[i]) <= anchor by {
        assert(parts[i].offset_bytes < bound);
    }
    assert forall|i: int| k0 <= i < n implies (#[trigger] parts[i]).offset_bytes >= bound by {
        if i > k0 {
            assert(part_end(parts[k0]) <= parts[i].offset_bytes);
        }
    }
    if anchor != 0 {
        let j = choose|j: int| 0 <= j < parts.len() && part_end(#[trigger] parts[j]) == anchor;
        if j >= k0 {
            assert(parts[j].offset_bytes >= bound);
        }
        assert(j < k0);
        if j < k0 - 1 {
            assert(part_end(parts[j]) <= parts[k0 - 1].offset_bytes);
        }
        assert(part_end(parts[k0 - 1]) <= anchor);
    } else if k0 > 0 {
        assert(part_end(parts[k0 - 1]) <= anchor);
    }
    k0
}

/// The gap of the anchor's slot is the one chosen: no usable gap before it
/// starts near the anchor, and it does.
proof fn lemma_anchor_gap_chosen(
    disk_size: u64,
    parts: Seq<Partition>,
    anchor: u64,
    boot_bytes: u64,
    k0: int,
    g: Gap,
)
    requires
        ends_fit(parts),
        0 <= k0 <= parts.len(),
        prev_end(parts, k0) == anchor,
        forall|i: int| 0 <= i < k0 ==> part_end(#[trigger] parts[i]) <= anchor,
        g.start == anchor,
        g.end == slot_end(parts, disk_size, k0),
        g.size == g.end - g.start,
        g.size >= boot_bytes + TOTAL_PLACEMENT_OVERHEAD_BYTES,
        anchor + PARTITION_ALIGNMENT_BYTES <= u64::MAX,
    ensures
        chosen_gap(disk_size, parts, anchor, boot_bytes) == Some(g),
{
    let n = parts.len() as int;
    let min: int = boot_bytes + TOTAL_PLACEMENT_OVERHEAD_BYTES;
    assert(gap_between(anchor as int, g.end as int) == seq![g]);
    let a = gaps_before(parts, k0);
    let all = all_gaps(disk_size, parts);
    let rest: Seq<Gap> = if k0 < n {
        let m: int = k0 + 1;
        lemma_gaps_before_prefix(parts, m, n);
        let t = choose|t: Seq<Gap>| gaps_before(parts, n) == gaps_before(parts, m) + t;
        assert(gaps_before(parts, m) == a + seq![g]);
        let r = t + gap_between(prev_end(parts, n), disk_size as int);
        assert(all == a + seq![g] + r);
        r
    } else {
        assert(all == a + seq![g]);
        assert(all == a + seq![g] + Seq::<Gap>::empty());
        Seq::<Gap>::empty()
    };
    assert(all == a + (seq![g] + rest));
    lemma_usable_append(a, seq![g] + rest, min);
    lemma_usable_append(seq![g], rest, min);
    assert(usable(seq![g], min) == seq![g]) by {
        assert(seq![g].drop_last() == Seq::<Gap>::empty());
        assert(seq![g].last() == g);
        assert(usable(Seq::<Gap>::empty(), min) == Seq::<Gap>::empty());
        assert(Seq::<Gap>::empty().push(g) == seq![g]);
    }
    let ua = usable(a, min);
    let ub = seq![g] + usable(rest, min);
    assert(usable(all, min) == ua + ub);
    lemma_usable_members(a, min);
    lemma_gaps_before_members(parts, k0);
    lemma_gaps_before_well_formed(parts, k0);
    assert forall|i: int| 0 <= i < ua.len() implies !near_anchor(#[trigger] ua[i], anchor) by {
        let x = ua[i];
        assert(a.contains(x) && x.size >= min);
        let k = choose|k: int| 0 <= k < k0 && x.start == #[trigger] prev_end(parts, k) && x.end == parts[k].offset_bytes
            && x.end > x.start;
        assert(parts[k].offset_bytes <= part_end(parts[k]));
        assert(part_end(parts[k]) <= anchor);
        let q = choose|q: int| 0 <= q < a.len() && a[q] == x;
        assert(x.end == x.start + x.size);
    }
    lemma_first_near_none(ua, anchor);
    lemma_first_near_append(ua, ub, anchor);
    lemma_first_near_append(seq![g], usable(rest, min), anchor);
    assert(near_anchor(g, anchor));
    assert(first_near(seq![g], anchor) == Some(g)) by {
        assert(seq![g].drop_last() == Seq::<Gap>::empty());
        assert(seq![g].last() == g);
        assert(first_near(Seq::<Gap>::empty(), anchor) is None);
        assert(near_anchor(g, anchor));
    }
}

/// Enough free room right after the anchor is always used: when the anchor
/// is the disk start or a partition's end and the room for the Linux area,
/// the boot partition and the placement overhead follows it free and within
/// the disk, the plan places the boot partition and leaves the requested
/// Linux space (of at least one alignment unit) before it.
pub proof fn lemma_room_after_anchor_is_used(
    disk_size: u64,
    parts: Seq<Partition>,
    anchor: u64,
    boot_bytes: u64,
    linux_bytes: u64,
)
    requires
        sorted_disjoint(parts),
        within_disk(parts, disk_size),
        is_boundary(parts, anchor as int),
        linux_bytes >= PARTITION_ALIGNMENT_BYTES,
        anchor + linux_bytes + boot_bytes + TOTAL_PLACEMENT_OVERHEAD_BYTES <= disk_size,
        free_span(parts, anchor as int, anchor + linux_bytes + boot_bytes + TOTAL_PLACEMENT_OVERHEAD_BYTES),
    ensures
        contiguous_plan(disk_size, parts, anchor, boot_bytes, linux_bytes).has_boot_space,
        contiguous_plan(disk_size, parts, anchor, boot_bytes, linux_bytes).has_requested_linux_space,
{
    let room: int = linux_bytes + boot_bytes + TOTAL_PLACEMENT_OVERHEAD_BYTES;
    assert(ends_fit(parts)) by {
        assert forall|i: int| 0 <= i < parts.len() implies (#[trigger] parts[i]).offset_bytes + parts[i].size_bytes
            <= u64::MAX by {
            assert(part_end(parts[i]) <= disk_size);
        }
    }
    let k0 = lemma_anchor_slot(parts, disk_size, anchor, room);
    let e = slot_end(parts, disk_size, k0);
    assert(e <= disk_size) by {
        if k0 < parts.len() {
            assert(part_end(parts[k0]) <= disk_size);
        }
    }
    let g = Gap { start: anchor, end: e as u64, size: (e - anchor) as u64 };
    lemma_anchor_gap_chosen(disk_size, parts, anchor, boot_bytes, k0, g);
    lemma_aligned_offset_room(e, anchor as int, boot_bytes as int, linux_bytes as int);
}

/// Arithmetic of the aligned boot offset in a gap `[start, e)` with room
/// for the Linux area, the boot partition and the overhead.
proof fn lemma_aligned_offset_room(e: int, start: int, boot: int, linux: int)
    requires
        0 <= start,
        0 <= boot,
        linux >= PARTITION_ALIGNMENT_BYTES,
        e >= start + linux + boot + TOTAL_PLACEMENT_OVERHEAD_BYTES,
        e <= u64::MAX,
    ensures
        ({
            let raw = e - MSR_RESERVE_BYTES - boot;
            let off = (raw / (PARTITION_ALIGNMENT_BYTES as int)) * (PARTITION_ALIGNMENT_BYTES as int);
            &&& off >= start + PARTITION_ALIGNMENT_BYTES
            &&& off - start >= linux
        }),
{
    let raw = e - MSR_RESERVE_BYTES - boot;
    let al = PARTITION_ALIGNMENT_BYTES as int;
    vstd::arithmetic::div_mod::lemma_fundamental_div_mod(raw, al);
    vstd::arithmetic::mul::lemma_mul_is_commutative(raw / al, al);
}


proof fn lemma_largest_after_facts(s: Seq<Gap>, anchor: u64)
    ensures
        largest_after(s, anchor) matches Some(c) ==> s.contains(c) && c.start >= anchor && forall|i: int|
            0 <= i < s.len() && (#[trigger] s[i]).start >= anchor ==> c.size >= s[i].size,
        largest_after(s, anchor) is None ==> forall|i: int| 0 <= i < s.len() ==> (#[trigger] s[i]).start < anchor,
    decreases s.len(),
{
    if s.len() > 0 {
        let p = s.drop_last();
        lemma_largest_after_facts(p, anchor);
        let g = s.last();
        let n = s.len() - 1;
        assert(s[n] == g);
        let best = largest_after(p, anchor);
        match largest_after(s, anchor) {
            Some(c) => {
                if c == g && g.start >= anchor && (best is None || g.size >= best->0.size) {
                    assert(s.contains(c));
                    assert forall|i: int| 0 <= i < s.len() && (#[trigger] s[i]).start >= anchor implies c.size >= s[i].size by {
                        if i < n {
                            assert(p[i] == s[i]);
                        }
                    }
                } else {
                    assert(best == Some(c));
                    let k = choose|k: int| 0 <= k < p.len() && p[k] == c;
                    assert(s[k] == c);
                    assert forall|i: int| 0 <= i < s.len() && (#[trigger] s[i]).start >= anchor implies c.size >= s[i].size by {
                        if i < n {
                            assert(p[i] == s[i]);
                        }
                    }
                }
            },
            None => {
                assert forall|i: int| 0 <= i < s.len() implies (#[trigger] s[i]).start < anchor by {
                    if i < n {
                        assert(p[i] == s[i]);
                    }
                }
            },
        }
    }
}

proof fn lemma_usable_complete(s: Seq<Gap>, min: int)
    ensures
        forall|i: int| 0 <= i < s.len() && (#[trigger] s[i]).size >= min ==> usable(s, min).contains(s[i]),
    decreases s.len(),
{
    if s.len() > 0 {
        let p = s.drop_last();
        lemma_usable_complete(p, min);
        let rest = usable(p, min);
        assert forall|i: int| 0 <= i < s.len() && (#[trigger] s[i]).size >= min implies usable(s, min).contains(s[i]) by {
            if i < s.len() - 1 {
                assert(p[i] == s[i]);
                assert(rest.contains(s[i]));
                let q = choose|q: int| 0 <= q < rest.len() && rest[q] == s[i];
                if s.last().size >= min {
                    assert(usable(s, min)[q] == s[i]);
                }
            } else {
                assert(s.last() == s[i]);
                assert(usable(s, min)[rest.len() as int] == s[i]);
            }
        }
    }
}

/// When no usable gap starts within one alignment unit of the anchor, the
/// boot partition goes into a largest usable gap starting at or after the
/// anchor: the chosen gap is a gap of the disk, large enough, starting at
/// or after the anchor, and no other such gap is larger; a gap is chosen
/// exactly when such a gap exists.
pub proof fn lemma_far_anchor_takes_largest_gap(
    disk_size: u64,
    parts: Seq<Partition>,
    anchor: u64,
    boot_bytes: u64,
)
    requires
        forall|g: Gap| #[trigger] all_gaps(disk_size, parts).contains(g) && g.size >= boot_bytes
            + TOTAL_PLACEMENT_OVERHEAD_BYTES ==> !near_anchor(g, anchor),
    ensures
        chosen_gap(disk_size, parts, anchor, boot_bytes) matches Some(c) ==> {
            &&& all_gaps(disk_size, parts).contains(c)
            &&& c.size >= boot_bytes + TOTAL_PLACEMENT_OVERHEAD_BYTES
            &&& c.start >= anchor
            &&& forall|g: Gap| #[trigger] all_gaps(disk_size, parts).contains(g) && g.size >= boot_bytes
                + TOTAL_PLACEMENT_OVERHEAD_BYTES && g.start >= anchor ==> c.size >= g.size
        },
        chosen_gap(disk_size, parts, anchor, boot_bytes) is None <==> forall|g: Gap| #[trigger] all_gaps(
            disk_size,
            parts,
        ).contains(g) && g.size >= boot_bytes + TOTAL_PLACEMENT_OVERHEAD_BYTES ==> g.start < anchor,
{
    let all = all_gaps(disk_size, parts);
    let min: int = boot_bytes + TOTAL_PLACEMENT_OVERHEAD_BYTES;
    let u = usable(all, min);
    lemma_usable_members(all, min);
    lemma_usable_complete(all, min);
    assert forall|i: int| 0 <= i < u.len() implies !near_anchor(#[trigger] u[i], anchor) by {
        assert(all.contains(u[i]) && u[i].size >= min);
    }
    lemma_first_near_none(u, anchor);
    lemma_largest_after_facts(u, anchor);
    if let Some(c) = largest_after(u, anchor) {
        let q = choose|q: int| 0 <= q < u.len() && u[q] == c;
        assert(all.contains(c) && c.size >= min);
        assert forall|g: Gap| #[trigger] all.contains(g) && g.size >= min && g.start >= anchor implies c.size >= g.size by {
            let i = choose|i: int| 0 <= i < all.len() && all[i] == g;
            assert(u.contains(all[i]));
            let k = choose|k: int| 0 <= k < u.len() && u[k] == g;
        }
    } else {
        assert forall|g: Gap| #[trigger] all.contains(g) && g.size >= min implies g.start < anchor by {
            let i = choose|i: int| 0 <= i < all.len() && all[i] == g;
            assert(u.contains(all[i]));
            let k = choose|k: int| 0 <= k < u.len() && u[k] == g;
        }
    }
    if forall|g: Gap| #[trigger] all.contains(g) && g.size >= min ==> g.start < anchor {
        if let Some(c) = largest_after(u, anchor) {
            let q = choose|q: int| 0 <= q < u.len() && u[q] == c;
            assert(all.contains(c) && c.size >= min);
        }
    }
}

} // verus!
