//! Garam Hybrid Slicing: the pure planner that cuts a set of disks of unequal
//! sizes into horizontal slices. Each slice takes the same number of bytes from
//! every disk that still has room, so that the slices can be joined into RAID
//! arrays; the partition numbers and byte offsets of every piece are computed
//! here, so that the executor only has to follow the plan.

use vstd::prelude::*;
use super::{StorageBackend};
use crate::text::str_equals;

verus! {

/// The redundancy level that a slice is built with.
#[derive(Debug, Clone, Copy, PartialEq, Eq, Structural)]
pub enum GhsRaidType {
    /// Two pieces, mirrored.
    Raid1,
    /// Three or more pieces, with parity.
    Raid5,
    /// A single piece left over on one disk.
    SafeSingle,
}

/// One partition to cut on one disk.
#[derive(Debug, Clone)]
pub struct PartitionTarget {
    pub disk_name: String,
    pub partition_index: u32,
    pub start_offset_bytes: u64,
}

/// The mathematical value of a [`PartitionTarget`].
pub struct TargetView {
    pub disk_name: Seq<char>,
    pub partition_index: u32,
    pub start_offset_bytes: u64,
}

impl View for PartitionTarget {
    type V = TargetView;

    open spec fn view(&self) -> TargetView {
        TargetView {
            disk_name: self.disk_name@,
            partition_index: self.partition_index,
            start_offset_bytes: self.start_offset_bytes,
        }
    }
}

/// One horizontal slice of the plan: the same number of bytes on each target.
#[derive(Debug, Clone)]
pub struct GhsSlicePlan {
    pub slice_index: u32,
    pub chunk_size_bytes: u64,
    pub raid_type: GhsRaidType,
    pub targets: Vec<PartitionTarget>,
}

/// The mathematical value of a [`GhsSlicePlan`].
pub struct PlanView {
    pub slice_index: u32,
    pub chunk_size_bytes: u64,
    pub raid_type: GhsRaidType,
    pub targets: Seq<TargetView>,
}

impl View for GhsSlicePlan {
    type V = PlanView;

    open spec fn view(&self) -> PlanView {
        PlanView {
            slice_index: self.slice_index,
            chunk_size_bytes: self.chunk_size_bytes,
            raid_type: self.raid_type,
            targets: self.targets@.map_values(|t: PartitionTarget| t@),
        }
    }
}

/// A disk name with a number of bytes.
pub type DiskEntry = (Seq<char>, u64);

/// A disk name with the offset and the partition number of its next piece.
pub type TrackEntry = (Seq<char>, u64, u32);

pub open spec fn plans_view(v: Seq<GhsSlicePlan>) -> Seq<PlanView> {
    v.map_values(|p: GhsSlicePlan| p@)
}

pub open spec fn disks_view(v: Seq<(String, u64)>) -> Seq<DiskEntry> {
    v.map_values(|d: (String, u64)| (d.0@, d.1))
}

pub open spec fn track_view(v: Seq<(String, u64, u32)>) -> Seq<TrackEntry> {
    v.map_values(|d: (String, u64, u32)| (d.0@, d.1, d.2))
}

/// The entries that still have bytes left, in their order.
pub open spec fn keep_positive(s: Seq<DiskEntry>) -> Seq<DiskEntry>
    decreases s.len(),
{
    if s.len() == 0 {
        s
    } else {
        let r = keep_positive(s.drop_last());
        if s.last().1 > 0 {
            r.push(s.last())
        } else {
            r
        }
    }
}

/// Inserts `x` after every entry whose size is at most its own (one step of a
/// stable sort by size).
pub open spec fn insert_by_size(s: Seq<DiskEntry>, x: DiskEntry) -> Seq<DiskEntry>
    decreases s.len(),
{
    if s.len() == 0 {
        seq![x]
    } else if s.last().1 <= x.1 {
        s.push(x)
    } else {
        insert_by_size(s.drop_last(), x).push(s.last())
    }
}

/// The entries stably sorted by size, smallest first.
pub open spec fn sort_by_size(s: Seq<DiskEntry>) -> Seq<DiskEntry>
    decreases s.len(),
{
    if s.len() == 0 {
        s
    } else {
        insert_by_size(sort_by_size(s.drop_last()), s.last())
    }
}

/// Every entry with `c` bytes taken away.
pub open spec fn subtract_chunk(s: Seq<DiskEntry>, c: u64) -> Seq<DiskEntry> {
    s.map_values(|d: DiskEntry| (d.0, (d.1 - c) as u64))
}

pub open spec fn entry_names(s: Seq<DiskEntry>) -> Seq<Seq<char>> {
    s.map_values(|d: DiskEntry| d.0)
}

/// The position of the first tracker entry for `n`, or -1.
pub open spec fn first_index(t: Seq<TrackEntry>, n: Seq<char>) -> int
    decreases t.len(),
{
    if t.len() == 0 {
        -1
    } else if t[0].0 == n {
        0
    } else {
        let r = first_index(t.drop_first(), n);
        if r < 0 {
            -1
        } else {
            r + 1
        }
    }
}

/// Offset and partition number of the next piece of disk `n`.
pub open spec fn lookup_track(t: Seq<TrackEntry>, n: Seq<char>) -> Option<(u64, u32)> {
    let j = first_index(t, n);
    if j >= 0 {
        Some((t[j].1, t[j].2))
    } else {
        None
    }
}

/// The tracker after disk `n` received a piece of `c` bytes.
pub open spec fn advance_track(t: Seq<TrackEntry>, n: Seq<char>, c: u64) -> Seq<TrackEntry> {
    let j = first_index(t, n);
    if j >= 0 {
        t.update(j, (t[j].0, (t[j].1 + c) as u64, (t[j].2 + 1) as u32))
    } else {
        t
    }
}

pub open spec fn next_piece(t: Seq<TrackEntry>, n: Seq<char>) -> (u64, u32) {
    match lookup_track(t, n) {
        Some(v) => v,
        None => (0u64, 1u32),
    }
}

/// The targets of one slice over the disks `names`, in order, each receiving
/// `c` bytes, with the tracker after the slice.
pub open spec fn round_targets(names: Seq<Seq<char>>, t: Seq<TrackEntry>, c: u64) -> (
    Seq<TargetView>,
    Seq<TrackEntry>,
)
    decreases names.len(),
{
    if names.len() == 0 {
        (seq![], t)
    } else {
        let prev = round_targets(names.drop_last(), t, c);
        let n = names.last();
        let (o, i) = next_piece(prev.1, n);
        (
            prev.0.push(TargetView { disk_name: n, partition_index: i, start_offset_bytes: o }),
            advance_track(prev.1, n, c),
        )
    }
}

pub open spec fn raid_for_count(count: nat) -> GhsRaidType {
    if count < 2 {
        GhsRaidType::SafeSingle
    } else if count == 2 {
        GhsRaidType::Raid1
    } else {
        GhsRaidType::Raid5
    }
}

pub proof fn lemma_keep_positive_len(s: Seq<DiskEntry>)
    ensures
        keep_positive(s).len() <= s.len(),
        (exists|k: int| 0 <= k < s.len() && s[k].1 == 0) ==> keep_positive(s).len() < s.len(),
        forall|k: int| 0 <= k < keep_positive(s).len() ==> #[trigger] keep_positive(s)[k].1 > 0,
    decreases s.len(),
{
    if s.len() > 0 {
        lemma_keep_positive_len(s.drop_last());
        if exists|k: int| 0 <= k < s.len() && s[k].1 == 0 {
            let k = choose|k: int| 0 <= k < s.len() && s[k].1 == 0;
            if k < s.len() - 1 {
                assert(s.drop_last()[k].1 == 0);
            }
        }
    }
}

pub proof fn lemma_insert_len(s: Seq<DiskEntry>, x: DiskEntry)
    ensures
        insert_by_size(s, x).len() == s.len() + 1,
    decreases s.len(),
{
    if s.len() > 0 && s.last().1 > x.1 {
        lemma_insert_len(s.drop_last(), x);
    }
}

pub proof fn lemma_sort_len(s: Seq<DiskEntry>)
    ensures
        sort_by_size(s).len() == s.len(),
    decreases s.len(),
{
    if s.len() > 0 {
        lemma_sort_len(s.drop_last());
        lemma_insert_len(sort_by_size(s.drop_last()), s.last());
    }
}

/// The slices, numbered from `idx`, that the planner cuts from `pool` given the
/// tracker `t`.
pub open spec fn ghs_rounds(pool: Seq<DiskEntry>, t: Seq<TrackEntry>, idx: u32) -> Seq<PlanView>
    decreases keep_positive(pool).len(),
{
    let p = keep_positive(pool);
    if p.len() == 0 {
        seq![]
    } else {
        let s = sort_by_size(p);
        proof {
            lemma_sort_len(p);
        }
        let min = s[0].1;
        if s.len() < 2 {
            let (o, i) = next_piece(t, s[0].0);
            seq![
                PlanView {
                    slice_index: idx,
                    chunk_size_bytes: min,
                    raid_type: GhsRaidType::SafeSingle,
                    targets: seq![TargetView { disk_name: s[0].0, partition_index: i, start_offset_bytes: o }],
                },
            ]
        } else {
            let r = round_targets(entry_names(s), t, min);
            let next = subtract_chunk(s, min);
            proof {
                assert(next[0].1 == 0);
                lemma_keep_positive_len(next);
            }
            seq![
                PlanView {
                    slice_index: idx,
                    chunk_size_bytes: min,
                    raid_type: raid_for_count(s.len()),
                    targets: r.0,
                },
            ] + ghs_rounds(next, r.1, (idx + 1) as u32)
        }
    }
}

/// Every disk starts at offset zero with partition number one.
pub open spec fn initial_track(d: Seq<DiskEntry>) -> Seq<TrackEntry> {
    d.map_values(|e: DiskEntry| (e.0, 0u64, 1u32))
}

/// The whole slicing plan for the disks `d`, slices numbered from one.
pub open spec fn ghs_blueprint(d: Seq<DiskEntry>) -> Seq<PlanView> {
    ghs_rounds(d, initial_track(d), 1)
}


/// The number of bytes held by all entries.
pub open spec fn total_bytes(s: Seq<DiskEntry>) -> nat
    decreases s.len(),
{
    if s.len() == 0 {
        0
    } else {
        total_bytes(s.drop_last()) + s.last().1 as nat
    }
}

pub open spec fn sorted_by_size(s: Seq<DiskEntry>) -> bool {
    forall|i: int, j: int| 0 <= i <= j < s.len() ==> s[i].1 <= s[j].1
}


pub proof fn lemma_insert_props(s: Seq<DiskEntry>, x: DiskEntry)
    ensures
        total_bytes(insert_by_size(s, x)) == total_bytes(s) + x.1,
        sorted_by_size(s) ==> sorted_by_size(insert_by_size(s, x)),
        insert_by_size(s, x).len() == s.len() + 1,
        forall|k: int| 0 <= k < insert_by_size(s, x).len() ==> {
            ||| #[trigger] insert_by_size(s, x)[k] == x
            ||| exists|m: int| 0 <= m < s.len() && insert_by_size(s, x)[k] == s[m]
        },
    decreases s.len(),
{
    lemma_insert_len(s, x);
    if s.len() == 0 {
        assert(seq![x].drop_last() =~= Seq::<DiskEntry>::empty());
        assert(total_bytes(seq![x]) == total_bytes(seq![x].drop_last()) + x.1);
    } else if s.last().1 <= x.1 {
        assert(s.push(x).drop_last() =~= s);
        let r = s.push(x);
        assert forall|k: int| 0 <= k < r.len() implies {
            ||| #[trigger] r[k] == x
            ||| exists|m: int| 0 <= m < s.len() && r[k] == s[m]
        } by {
            if k < s.len() {
                assert(r[k] == s[k]);
            }
        }
    } else {
        let d = s.drop_last();
        lemma_insert_props(d, x);
        let i = insert_by_size(d, x);
        let r = i.push(s.last());
        assert(r.drop_last() =~= i);
        assert(total_bytes(r) == total_bytes(i) + s.last().1);
        assert(total_bytes(s) == total_bytes(d) + s.last().1);
        assert forall|k: int| 0 <= k < r.len() implies {
            ||| #[trigger] r[k] == x
            ||| exists|m: int| 0 <= m < s.len() && r[k] == s[m]
        } by {
            if k == r.len() - 1 {
                assert(r[k] == s[s.len() - 1]);
            } else {
                assert(r[k] == i[k]);
                if i[k] != x {
                    let m = choose|m: int| 0 <= m < d.len() && i[k] == d[m];
                    assert(s[m] == d[m]);
                }
            }
        }
        if sorted_by_size(s) {
            assert(sorted_by_size(d));
            assert forall|a: int, b: int| 0 <= a <= b < r.len() implies r[a].1 <= r[b].1 by {
                if b == r.len() - 1 && a < b {
                    assert(r[a] == i[a]);
                    if i[a] != x {
                        let m = choose|m: int| 0 <= m < d.len() && i[a] == d[m];
                        assert(s[m] == d[m]);
                    }
                }
            }
        }
    }
}

pub proof fn lemma_sort_props(s: Seq<DiskEntry>)
    ensures
        total_bytes(sort_by_size(s)) == total_bytes(s),
        sorted_by_size(sort_by_size(s)),
        sort_by_size(s).len() == s.len(),
    decreases s.len(),
{
    lemma_sort_len(s);
    if s.len() > 0 {
        lemma_sort_props(s.drop_last());
        lemma_insert_props(sort_by_size(s.drop_last()), s.last());
    }
}


pub proof fn lemma_first_index(t: Seq<TrackEntry>, n: Seq<char>)
    ensures
        -1 <= first_index(t, n) < t.len(),
        first_index(t, n) >= 0 ==> t[first_index(t, n)].0 == n,
        forall|k: int| 0 <= k < first_index(t, n) ==> t[k].0 != n,
        first_index(t, n) == -1 ==> forall|k: int| 0 <= k < t.len() ==> t[k].0 != n,
    decreases t.len(),
{
    if t.len() > 0 && t[0].0 != n {
        lemma_first_index(t.drop_first(), n);
        let r = first_index(t.drop_first(), n);
        assert forall|k: int| 0 <= k < first_index(t, n) implies t[k].0 != n by {
            if k > 0 {
                assert(t[k] == t.drop_first()[k - 1]);
            }
        }
        if r == -1 {
            assert forall|k: int| 0 <= k < t.len() implies t[k].0 != n by {
                if k > 0 {
                    assert(t[k] == t.drop_first()[k - 1]);
                }
            }
        }
    }
}

fn keep_positive_exec(pool: &Vec<(String, u64)>) -> (r: Vec<(String, u64)>)
    ensures
        disks_view(r@) == keep_positive(disks_view(pool@)),
{
    let mut r: Vec<(String, u64)> = Vec::new();
    let mut i: usize = 0;
    while i < pool.len()
        invariant
            i <= pool.len(),
            disks_view(r@) == keep_positive(disks_view(pool@).take(i as int)),
        decreases pool.len() - i,
    {
        let ghost d = disks_view(pool@).take(i + 1);
        assert(d.drop_last() =~= disks_view(pool@).take(i as int));
        if pool[i].1 > 0 {
            let name = pool[i].0.clone();
            let ghost old_r = r@;
            r.push((name, pool[i].1));
            assert(disks_view(r@) =~= disks_view(old_r).push((pool@[i as int].0@, pool@[i as int].1)));
        }
        i = i + 1;
    }
    assert(disks_view(pool@).take(pool.len() as int) =~= disks_view(pool@));
    r
}

proof fn lemma_insert_at(s: Seq<DiskEntry>, x: DiskEntry, j: int)
    requires
        0 <= j <= s.len(),
        j == 0 || s[j - 1].1 <= x.1,
        forall|k: int| j <= k < s.len() ==> s[k].1 > x.1,
    ensures
        insert_by_size(s, x) == s.insert(j, x),
    decreases s.len(),
{
    if s.len() == 0 {
        assert(s.insert(j, x) =~= seq![x]);
    } else if j == s.len() {
        assert(s.insert(j, x) =~= s.push(x));
    } else {
        lemma_insert_at(s.drop_last(), x, j);
        assert(s.insert(j, x) =~= s.drop_last().insert(j, x).push(s.last()));
    }
}

fn insert_by_size_exec(s: &mut Vec<(String, u64)>, x: (String, u64))
    ensures
        disks_view(final(s)@) == insert_by_size(disks_view(old(s)@), (x.0@, x.1)),
{
    let mut j = s.len();
    while j > 0 && s[j - 1].1 > x.1
        invariant
            j <= s.len(),
            forall|k: int| j <= k < s.len() ==> s@[k].1 > x.1,
        decreases j,
    {
        j = j - 1;
    }
    let ghost before = s@;
    proof {
        lemma_insert_at(disks_view(before), (x.0@, x.1), j as int);
    }
    s.insert(j, x);
    assert(disks_view(s@) =~= disks_view(before).insert(j as int, (x.0@, x.1)));
}

fn sort_by_size_exec(p: &Vec<(String, u64)>) -> (r: Vec<(String, u64)>)
    ensures
        disks_view(r@) == sort_by_size(disks_view(p@)),
{
    let mut r: Vec<(String, u64)> = Vec::new();
    let mut i: usize = 0;
    while i < p.len()
        invariant
            i <= p.len(),
            disks_view(r@) == sort_by_size(disks_view(p@).take(i as int)),
        decreases p.len() - i,
    {
        let ghost d = disks_view(p@).take(i + 1);
        assert(d.drop_last() =~= disks_view(p@).take(i as int));
        let name = p[i].0.clone();
        insert_by_size_exec(&mut r, (name, p[i].1));
        i = i + 1;
    }
    assert(disks_view(p@).take(p.len() as int) =~= disks_view(p@));
    r
}

fn track_find(t: &Vec<(String, u64, u32)>, n: &String) -> (r: Option<usize>)
    ensures
        match r {
            Some(j) => j < t.len() && j as int == first_index(track_view(t@), n@),
            None => first_index(track_view(t@), n@) == -1,
        },
{
    let ghost tv = track_view(t@);
    proof {
        lemma_first_index(tv, n@);
    }
    let mut i: usize = 0;
    while i < t.len()
        invariant
            i <= t.len(),
            tv == track_view(t@),
            forall|k: int| 0 <= k < i ==> tv[k].0 != n@,
            -1 <= first_index(tv, n@) < tv.len(),
            first_index(tv, n@) >= 0 ==> tv[first_index(tv, n@)].0 == n@,
            forall|k: int| 0 <= k < first_index(tv, n@) ==> tv[k].0 != n@,
            first_index(tv, n@) == -1 ==> forall|k: int| 0 <= k < tv.len() ==> tv[k].0 != n@,
        decreases t.len() - i,
    {
        if t[i].0 == *n {
            assert(tv[i as int].0 == n@);
            return Some(i);
        }
        i = i + 1;
    }
    None
}


/// The planner over a fixed set of disks, each given by name and size in bytes.
pub struct PureGhsEngine {
    pub input_disks: Vec<(String, u64)>,
}

/// The disks the planner can take without overflowing its per-disk counters.
/// Disks that share a name share one offset and one partition counter, so the
/// bytes of each name must fit in a `u64`, and the number of its pieces (at
/// most its number of disks times the number of disks) in a `u32`. With
/// distinct names this only asks for fewer than `u32::MAX` disks.
pub open spec fn plannable(d: Seq<DiskEntry>) -> bool {
    forall|q: Seq<char>|
        #![trigger name_total(d, q)]
        #![trigger name_count(d, q)]
        name_total(d, q) <= u64::MAX && name_count(d, q) * d.len() < u32::MAX
}


proof fn lemma_name_absent(s: Seq<DiskEntry>, q: Seq<char>)
    requires
        forall|k: int| 0 <= k < s.len() ==> #[trigger] s[k].0 != q,
    ensures
        name_total(s, q) == 0,
        name_count(s, q) == 0,
    decreases s.len(),
{
    if s.len() > 0 {
        lemma_name_absent(s.drop_last(), q);
    }
}

proof fn lemma_name_total_prefix(s: Seq<DiskEntry>, k: int, n: Seq<char>)
    requires
        0 <= k <= s.len(),
    ensures
        name_total(s.take(k), n) <= name_total(s, n),
    decreases s.len() - k,
{
    if k < s.len() {
        lemma_name_total_prefix(s, k + 1, n);
        assert(s.take(k + 1).drop_last() =~= s.take(k));
    } else {
        assert(s.take(k) =~= s);
    }
}

/// The bytes and the number of the disks named `name`, or `None` when the
/// bytes do not fit in a `u64`.
fn name_usage(disks: &Vec<(String, u64)>, name: &String) -> (r: Option<(u64, usize)>)
    ensures
        match r {
            Some(x) => x.0 == name_total(disks_view(disks@), name@) && x.1 == name_count(disks_view(disks@), name@),
            None => name_total(disks_view(disks@), name@) > u64::MAX,
        },
{
    let ghost dv = disks_view(disks@);
    let mut tot: u64 = 0;
    let mut cnt: usize = 0;
    let mut j: usize = 0;
    assert(dv.take(0) =~= Seq::<DiskEntry>::empty());
    while j < disks.len()
        invariant
            j <= disks.len(),
            dv == disks_view(disks@),
            tot == name_total(dv.take(j as int), name@),
            cnt == name_count(dv.take(j as int), name@),
            cnt <= j,
        decreases disks.len() - j,
    {
        assert(dv.take(j + 1).drop_last() =~= dv.take(j as int));
        assert(dv.take(j + 1).last() == dv[j as int]);
        if str_equals(disks[j].0.as_str(), name.as_str()) {
            match tot.checked_add(disks[j].1) {
                Some(t) => tot = t,
                None => {
                    proof {
                        lemma_name_total_prefix(dv, j + 1, name@);
                    }
                    return None;
                },
            }
            cnt = cnt + 1;
        }
        j = j + 1;
    }
    assert(dv.take(disks.len() as int) =~= dv);
    Some((tot, cnt))
}

/// Whether the hybrid planner takes `disks`: see [`plannable`].
pub fn plannable_disks(disks: &Vec<(String, u64)>) -> (r: bool)
    ensures
        r == plannable(disks_view(disks@)),
{
    let ghost dv = disks_view(disks@);
    let n = disks.len();
    let mut i: usize = 0;
    while i < n
        invariant
            i <= n,
            n == disks.len(),
            dv == disks_view(disks@),
            forall|k: int|
                0 <= k < i ==> name_total(dv, #[trigger] dv[k].0) <= u64::MAX && name_count(dv, dv[k].0) * n
                    < u32::MAX,
        decreases n - i,
    {
        match name_usage(disks, &disks[i].0) {
            Some((_, cnt)) => {
                let fits = match (cnt as u64).checked_mul(n as u64) {
                    Some(p) => p < 4294967295,
                    None => false,
                };
                if !fits {
                    assert(dv[i as int].0 == disks@[i as int].0@);
                    return false;
                }
            },
            None => {
                assert(dv[i as int].0 == disks@[i as int].0@);
                return false;
            },
        }
        assert(dv[i as int].0 == disks@[i as int].0@);
        i = i + 1;
    }
    proof {
        assert forall|q: Seq<char>|
            #![trigger name_total(dv, q)]
            #![trigger name_count(dv, q)]
            name_total(dv, q) <= u64::MAX && name_count(dv, q) * dv.len() < u32::MAX by {
            if exists|k: int| 0 <= k < dv.len() && dv[k].0 == q {
                let k = choose|k: int| 0 <= k < dv.len() && dv[k].0 == q;
                assert(name_total(dv, dv[k].0) <= u64::MAX);
            } else {
                lemma_name_absent(dv, q);
            }
        }
    }
    true
}

pub(crate) fn clone_disks(v: &[(String, u64)]) -> (r: Vec<(String, u64)>)
    ensures
        disks_view(r@) == disks_view(v@),
{
    let mut r: Vec<(String, u64)> = Vec::new();
    let mut i: usize = 0;
    while i < v.len()
        invariant
            i <= v.len(),
            disks_view(r@) == disks_view(v@).take(i as int),
        decreases v.len() - i,
    {
        let name = v[i].0.clone();
        let ghost old_r = r@;
        r.push((name, v[i].1));
        assert(disks_view(r@) =~= disks_view(old_r).push((v@[i as int].0@, v@[i as int].1)));
        i = i + 1;
        assert(disks_view(r@) =~= disks_view(v@).take(i as int));
    }
    assert(disks_view(v@).take(v.len() as int) =~= disks_view(v@));
    r
}

fn initial_tracker(v: &[(String, u64)]) -> (r: Vec<(String, u64, u32)>)
    ensures
        track_view(r@) == initial_track(disks_view(v@)),
{
    let mut r: Vec<(String, u64, u32)> = Vec::new();
    let mut i: usize = 0;
    while i < v.len()
        invariant
            i <= v.len(),
            track_view(r@) == initial_track(disks_view(v@)).take(i as int),
        decreases v.len() - i,
    {
        let name = v[i].0.clone();
        let ghost old_r = r@;
        r.push((name, 0u64, 1u32));
        assert(track_view(r@) =~= track_view(old_r).push((v@[i as int].0@, 0u64, 1u32)));
        i = i + 1;
        assert(track_view(r@) =~= initial_track(disks_view(v@)).take(i as int));
    }
    assert(initial_track(disks_view(v@)).take(v.len() as int) =~= initial_track(disks_view(v@)));
    r
}

impl PureGhsEngine {
    pub fn new(disks: Vec<(String, u64)>) -> (r: Self)
        ensures
            r.input_disks@ == disks@,
    {
        Self { input_disks: disks }
    }

    /// The slicing plan of the engine's disks: see [`ghs_blueprint`]. Every byte
    /// of every disk lands in exactly one piece, the pieces of a disk follow one
    /// another from offset zero with partition numbers 1, 2, 3, ..., and the slices
    /// are numbered from one with the RAID level their width calls for.
    pub fn generate_slicing_blueprint(&self) -> (r: Vec<GhsSlicePlan>)
        requires
            plannable(disks_view(self.input_disks@)),
        ensures
            plans_view(r@) == ghs_blueprint(disks_view(self.input_disks@)),
            offsets_follow_history(pieces(plans_view(r@))),
            covers_every_byte(disks_view(self.input_disks@), plans_view(r@)),
            slices_well_formed(plans_view(r@)),
    {
        let pool = clone_disks(&self.input_disks);
        let tracker = initial_tracker(&self.input_disks);
        slice_core(pool, tracker, Ghost(disks_view(self.input_disks@)))
    }
}

/// The pieces of one slice: each target with the slice's chunk size.
pub open spec fn plan_pieces(p: PlanView) -> Seq<(TargetView, u64)> {
    p.targets.map_values(|t: TargetView| (t, p.chunk_size_bytes))
}

/// All pieces of a plan, slice after slice, each target with its size.
pub open spec fn pieces(plans: Seq<PlanView>) -> Seq<(TargetView, u64)>
    decreases plans.len(),
{
    if plans.len() == 0 {
        seq![]
    } else {
        pieces(plans.drop_last()) + plan_pieces(plans.last())
    }
}

/// The number of bytes that the pieces `ps` take from disk `n`.
pub open spec fn bytes_of(ps: Seq<(TargetView, u64)>, n: Seq<char>) -> nat
    decreases ps.len(),
{
    if ps.len() == 0 {
        0
    } else {
        bytes_of(ps.drop_last(), n) + if ps.last().0.disk_name == n {
            ps.last().1 as nat
        } else {
            0
        }
    }
}

/// The number of pieces among `ps` cut from disk `n`.
pub open spec fn pieces_of(ps: Seq<(TargetView, u64)>, n: Seq<char>) -> nat
    decreases ps.len(),
{
    if ps.len() == 0 {
        0
    } else {
        pieces_of(ps.drop_last(), n) + if ps.last().0.disk_name == n {
            1nat
        } else {
            0
        }
    }
}

/// The number of bytes of all entries named `n`.
pub open spec fn name_total(s: Seq<DiskEntry>, n: Seq<char>) -> nat
    decreases s.len(),
{
    if s.len() == 0 {
        0
    } else {
        name_total(s.drop_last(), n) + if s.last().0 == n {
            s.last().1 as nat
        } else {
            0
        }
    }
}

/// The number of entries named `n`.
pub open spec fn name_count(s: Seq<DiskEntry>, n: Seq<char>) -> nat
    decreases s.len(),
{
    if s.len() == 0 {
        0
    } else {
        name_count(s.drop_last(), n) + if s.last().0 == n {
            1nat
        } else {
            0
        }
    }
}

/// Each piece starts where the earlier pieces of its disk end, and is numbered
/// one after them: pieces of one disk are contiguous, do not overlap, and are
/// numbered 1, 2, 3, ... from the start of the disk.
pub open spec fn offsets_follow_history(ps: Seq<(TargetView, u64)>) -> bool {
    forall|k: int|
        0 <= k < ps.len() ==> {
            &&& #[trigger] ps[k].0.start_offset_bytes == bytes_of(ps.take(k), ps[k].0.disk_name)
            &&& ps[k].0.partition_index == 1 + pieces_of(ps.take(k), ps[k].0.disk_name)
        }
}

/// The pieces of the plan take, from each disk name, exactly the bytes that
/// the disks of that name hold.
pub open spec fn covers_every_byte(d: Seq<DiskEntry>, plans: Seq<PlanView>) -> bool {
    forall|n: Seq<char>| #[trigger] bytes_of(pieces(plans), n) == name_total(d, n)
}

/// Slices are numbered 1, 2, 3, ...; each has a positive chunk and at least one
/// target, its RAID level follows its number of targets, and only the last slice
/// may have a single target.
pub open spec fn slices_well_formed(plans: Seq<PlanView>) -> bool {
    forall|k: int| 0 <= k < plans.len() ==> #[trigger] slice_ok(plans, k)
}

/// Slice `k` has number `k + 1`, a positive chunk, at least one target, the RAID
/// level of its width, and at least two targets unless it is the last slice.
pub open spec fn slice_ok(plans: Seq<PlanView>, k: int) -> bool {
    &&& plans[k].slice_index == k + 1
    &&& plans[k].chunk_size_bytes > 0
    &&& plans[k].targets.len() >= 1
    &&& plans[k].raid_type == raid_for_count(plans[k].targets.len())
    &&& k + 1 < plans.len() ==> plans[k].targets.len() >= 2
}

pub open spec fn tracker_matches(t: Seq<TrackEntry>, h: Seq<(TargetView, u64)>) -> bool {
    forall|n: Seq<char>|
        #[trigger] first_index(t, n) >= 0 ==> {
            &&& t[first_index(t, n)].1 == bytes_of(h, n)
            &&& t[first_index(t, n)].2 == 1 + pieces_of(h, n)
        }
}

pub open spec fn names_known(pool: Seq<DiskEntry>, t: Seq<TrackEntry>) -> bool {
    forall|k: int| 0 <= k < pool.len() ==> first_index(t, #[trigger] pool[k].0) >= 0
}

pub open spec fn bytes_balance(h: Seq<(TargetView, u64)>, pool: Seq<DiskEntry>, d: Seq<DiskEntry>) -> bool {
    forall|n: Seq<char>| #[trigger] bytes_of(h, n) + name_total(pool, n) == name_total(d, n)
}

proof fn lemma_bytes_push(ps: Seq<(TargetView, u64)>, x: (TargetView, u64))
    ensures
        forall|n: Seq<char>|
            #[trigger] bytes_of(ps.push(x), n) == bytes_of(ps, n) + if x.0.disk_name == n {
                x.1 as nat
            } else {
                0
            },
        forall|n: Seq<char>|
            #[trigger] pieces_of(ps.push(x), n) == pieces_of(ps, n) + if x.0.disk_name == n {
                1nat
            } else {
                0
            },
{
    assert(ps.push(x).drop_last() =~= ps);
}


proof fn lemma_pieces_push(plans: Seq<PlanView>, p: PlanView)
    ensures
        pieces(plans.push(p)) == pieces(plans) + plan_pieces(p),
{
    assert(plans.push(p).drop_last() =~= plans);
}

proof fn lemma_history_push(h: Seq<(TargetView, u64)>, x: (TargetView, u64))
    requires
        offsets_follow_history(h),
        x.0.start_offset_bytes == bytes_of(h, x.0.disk_name),
        x.0.partition_index == 1 + pieces_of(h, x.0.disk_name),
    ensures
        offsets_follow_history(h.push(x)),
{
    let h2 = h.push(x);
    assert forall|k: int| 0 <= k < h2.len() implies {
        &&& #[trigger] h2[k].0.start_offset_bytes == bytes_of(h2.take(k), h2[k].0.disk_name)
        &&& h2[k].0.partition_index == 1 + pieces_of(h2.take(k), h2[k].0.disk_name)
    } by {
        if k < h.len() {
            assert(h2.take(k) =~= h.take(k));
            assert(h2[k] == h[k]);
        } else {
            assert(h2.take(k) =~= h);
        }
    }
}

proof fn lemma_name_total_update(s: Seq<DiskEntry>, k: int, v: u64, n: Seq<char>)
    requires
        0 <= k < s.len(),
    ensures
        name_total(s.update(k, (s[k].0, v)), n) + (if s[k].0 == n { s[k].1 as nat } else { 0 })
            == name_total(s, n) + (if s[k].0 == n { v as nat } else { 0 }),
    decreases s.len(),
{
    let u = s.update(k, (s[k].0, v));
    if k == s.len() - 1 {
        assert(u.drop_last() =~= s.drop_last());
    } else {
        lemma_name_total_update(s.drop_last(), k, v, n);
        assert(u.drop_last() =~= s.drop_last().update(k, (s[k].0, v)));
    }
}

pub proof fn lemma_name_count_keep_positive(s: Seq<DiskEntry>, n: Seq<char>)
    ensures
        name_count(keep_positive(s), n) <= name_count(s, n),
    decreases s.len(),
{
    if s.len() > 0 {
        lemma_name_count_keep_positive(s.drop_last(), n);
        let r = keep_positive(s.drop_last());
        if s.last().1 > 0 {
            assert(r.push(s.last()).drop_last() =~= r);
        }
    }
}

proof fn lemma_name_count_insert(s: Seq<DiskEntry>, x: DiskEntry, n: Seq<char>)
    ensures
        name_count(insert_by_size(s, x), n) == name_count(s, n) + if x.0 == n {
            1nat
        } else {
            0
        },
    decreases s.len(),
{
    if s.len() == 0 {
        assert(seq![x].drop_last() =~= Seq::<DiskEntry>::empty());
        assert(name_count(seq![x], n) == name_count(seq![x].drop_last(), n) + if x.0 == n {
            1nat
        } else {
            0
        });
    } else if s.last().1 <= x.1 {
        assert(s.push(x).drop_last() =~= s);
    } else {
        lemma_name_count_insert(s.drop_last(), x, n);
        let i = insert_by_size(s.drop_last(), x);
        assert(i.push(s.last()).drop_last() =~= i);
        let l = s.last();
        assert(name_count(i.push(l), n) == name_count(i, n) + if l.0 == n {
            1nat
        } else {
            0
        });
    }
}

pub proof fn lemma_name_count_sort(s: Seq<DiskEntry>, n: Seq<char>)
    ensures
        name_count(sort_by_size(s), n) == name_count(s, n),
    decreases s.len(),
{
    if s.len() > 0 {
        lemma_name_count_sort(s.drop_last(), n);
        lemma_name_count_insert(sort_by_size(s.drop_last()), s.last(), n);
    }
}

pub proof fn lemma_name_count_subtract(s: Seq<DiskEntry>, c: u64, n: Seq<char>)
    ensures
        name_count(subtract_chunk(s, c), n) == name_count(s, n),
    decreases s.len(),
{
    if s.len() > 0 {
        lemma_name_count_subtract(s.drop_last(), c, n);
        assert(subtract_chunk(s, c).drop_last() =~= subtract_chunk(s.drop_last(), c));
    }
}

proof fn lemma_name_count_prefix(s: Seq<DiskEntry>, k: int, n: Seq<char>)
    requires
        0 <= k <= s.len(),
    ensures
        name_count(s.take(k), n) <= name_count(s, n),
    decreases s.len() - k,
{
    if k < s.len() {
        lemma_name_count_prefix(s, k + 1, n);
        assert(s.take(k + 1).drop_last() =~= s.take(k));
    } else {
        assert(s.take(k) =~= s);
    }
}

proof fn lemma_name_count_ge(s: Seq<DiskEntry>, k: int)
    requires
        0 <= k < s.len(),
    ensures
        name_count(s, s[k].0) >= 1,
    decreases s.len(),
{
    if k < s.len() - 1 {
        lemma_name_count_ge(s.drop_last(), k);
    }
}

proof fn lemma_name_total_ge(s: Seq<DiskEntry>, k: int)
    requires
        0 <= k < s.len(),
    ensures
        name_total(s, s[k].0) >= s[k].1,
    decreases s.len(),
{
    if k < s.len() - 1 {
        lemma_name_total_ge(s.drop_last(), k);
    }
}


proof fn lemma_name_total_keep_positive(s: Seq<DiskEntry>, n: Seq<char>)
    ensures
        name_total(keep_positive(s), n) == name_total(s, n),
    decreases s.len(),
{
    if s.len() > 0 {
        lemma_name_total_keep_positive(s.drop_last(), n);
        let r = keep_positive(s.drop_last());
        if s.last().1 > 0 {
            assert(r.push(s.last()).drop_last() =~= r);
        }
    }
}

proof fn lemma_name_total_insert(s: Seq<DiskEntry>, x: DiskEntry, n: Seq<char>)
    ensures
        name_total(insert_by_size(s, x), n) == name_total(s, n) + if x.0 == n {
            x.1 as nat
        } else {
            0
        },
    decreases s.len(),
{
    if s.len() == 0 {
        assert(seq![x].drop_last() =~= Seq::<DiskEntry>::empty());
        assert(name_total(seq![x], n) == name_total(seq![x].drop_last(), n) + if x.0 == n {
            x.1 as nat
        } else {
            0
        });
    } else if s.last().1 <= x.1 {
        assert(s.push(x).drop_last() =~= s);
    } else {
        lemma_name_total_insert(s.drop_last(), x, n);
        let i = insert_by_size(s.drop_last(), x);
        assert(i.push(s.last()).drop_last() =~= i);
        let l = s.last();
        assert(name_total(i.push(l), n) == name_total(i, n) + if l.0 == n {
            l.1 as nat
        } else {
            0
        });
    }
}

proof fn lemma_name_total_sort(s: Seq<DiskEntry>, n: Seq<char>)
    ensures
        name_total(sort_by_size(s), n) == name_total(s, n),
    decreases s.len(),
{
    if s.len() > 0 {
        lemma_name_total_sort(s.drop_last(), n);
        lemma_name_total_insert(sort_by_size(s.drop_last()), s.last(), n);
    }
}

proof fn lemma_keep_positive_members(s: Seq<DiskEntry>)
    ensures
        forall|k: int|
            0 <= k < keep_positive(s).len() ==> exists|m: int|
                0 <= m < s.len() && #[trigger] keep_positive(s)[k] == s[m],
    decreases s.len(),
{
    if s.len() > 0 {
        lemma_keep_positive_members(s.drop_last());
        let r = keep_positive(s.drop_last());
        let kp = keep_positive(s);
        assert forall|k: int| 0 <= k < kp.len() implies exists|m: int|
            0 <= m < s.len() && #[trigger] kp[k] == s[m] by {
            if k < r.len() {
                assert(kp[k] == r[k]);
                let m = choose|m: int| 0 <= m < s.drop_last().len() && r[k] == s.drop_last()[m];
                assert(s[m] == s.drop_last()[m]);
            } else {
                assert(kp[k] == s[s.len() - 1]);
            }
        }
    }
}

proof fn lemma_sort_members(s: Seq<DiskEntry>)
    ensures
        forall|k: int|
            0 <= k < sort_by_size(s).len() ==> exists|m: int|
                0 <= m < s.len() && #[trigger] sort_by_size(s)[k] == s[m],
    decreases s.len(),
{
    if s.len() > 0 {
        let d = s.drop_last();
        lemma_sort_members(d);
        let sd = sort_by_size(d);
        lemma_insert_props(sd, s.last());
        let r = sort_by_size(s);
        assert forall|k: int| 0 <= k < r.len() implies exists|m: int|
            0 <= m < s.len() && #[trigger] r[k] == s[m] by {
            if r[k] == s.last() {
                assert(r[k] == s[s.len() - 1]);
            } else {
                let m1 = choose|m: int| 0 <= m < sd.len() && r[k] == sd[m];
                let m2 = choose|m: int| 0 <= m < d.len() && sd[m1] == d[m];
                assert(s[m2] == d[m2]);
            }
        }
    }
}

pub proof fn lemma_first_index_same_names(t: Seq<TrackEntry>, t2: Seq<TrackEntry>, n: Seq<char>)
    requires
        t.len() == t2.len(),
        forall|k: int| 0 <= k < t.len() ==> #[trigger] t2[k].0 == t[k].0,
    ensures
        first_index(t2, n) == first_index(t, n),
    decreases t.len(),
{
    if t.len() > 0 && t[0].0 != n {
        lemma_first_index_same_names(t.drop_first(), t2.drop_first(), n);
    }
}

proof fn lemma_name_total_zero(s: Seq<DiskEntry>, n: Seq<char>)
    requires
        keep_positive(s).len() == 0,
    ensures
        name_total(s, n) == 0,
{
    lemma_name_total_keep_positive(s, n);
}

proof fn lemma_well_formed_push(old: Seq<PlanView>, pl: PlanView)
    requires
        slices_well_formed(old),
        forall|k: int| 0 <= k < old.len() ==> #[trigger] old[k].targets.len() >= 2,
        pl.slice_index == old.len() + 1,
        pl.chunk_size_bytes > 0,
        pl.targets.len() >= 1,
        pl.raid_type == raid_for_count(pl.targets.len()),
    ensures
        slices_well_formed(old.push(pl)),
        pl.targets.len() >= 2 ==> forall|k: int|
            0 <= k < old.push(pl).len() ==> #[trigger] old.push(pl)[k].targets.len() >= 2,
{
    let nw = old.push(pl);
    assert forall|k: int| 0 <= k < nw.len() implies #[trigger] slice_ok(nw, k) by {
        if k < old.len() {
            assert(nw[k] == old[k]);
            assert(slice_ok(old, k));
            assert(old[k].targets.len() >= 2);
        }
    }
    if pl.targets.len() >= 2 {
        assert forall|k: int| 0 <= k < nw.len() implies #[trigger] nw[k].targets.len() >= 2 by {
            if k < old.len() {
                assert(nw[k] == old[k]);
            }
        }
    }
}

fn cut_round(
    s: &Vec<(String, u64)>,
    tracker: &mut Vec<(String, u64, u32)>,
    min: u64,
    Ghost(h0): Ghost<Seq<(TargetView, u64)>>,
    Ghost(d): Ghost<Seq<DiskEntry>>,
) -> (r: (Vec<PartitionTarget>, Vec<(String, u64)>))
    requires
        sorted_by_size(disks_view(s@)),
        s.len() >= 2,
        min == s@[0].1,
        forall|q: Seq<char>| #[trigger] name_total(d, q) <= u64::MAX,
        forall|q: Seq<char>| #[trigger] pieces_of(h0, q) + name_count(disks_view(s@), q) < u32::MAX,
        tracker_matches(track_view(old(tracker)@), h0),
        names_known(disks_view(s@), track_view(old(tracker)@)),
        bytes_balance(h0, disks_view(s@), d),
        offsets_follow_history(h0),
    ensures
        round_targets(entry_names(disks_view(s@)), track_view(old(tracker)@), min)
            == (r.0@.map_values(|t: PartitionTarget| t@), track_view(final(tracker)@)),
        disks_view(r.1@) == subtract_chunk(disks_view(s@), min),
        tracker_matches(
            track_view(final(tracker)@),
            h0 + r.0@.map_values(|t: PartitionTarget| (t@, min)),
        ),
        offsets_follow_history(h0 + r.0@.map_values(|t: PartitionTarget| (t@, min))),
        forall|q: Seq<char>|
            #![trigger pieces_of(h0, q)]
            pieces_of(h0 + r.0@.map_values(|t: PartitionTarget| (t@, min)), q) == pieces_of(h0, q) + name_count(
                disks_view(s@),
                q,
            ),
        bytes_balance(
            h0 + r.0@.map_values(|t: PartitionTarget| (t@, min)),
            subtract_chunk(disks_view(s@), min),
            d,
        ),
        final(tracker)@.len() == old(tracker)@.len(),
        forall|k: int| 0 <= k < old(tracker)@.len() ==> #[trigger] final(tracker)@[k].0@ == old(tracker)@[k].0@,
        r.0@.len() == s.len(),
{
    let ghost sv = disks_view(s@);
    let ghost t0 = track_view(tracker@);
    let ghost names = entry_names(sv);
    let mut targets: Vec<PartitionTarget> = Vec::new();
    let mut next_pool: Vec<(String, u64)> = Vec::new();
    let ghost mut cur: Seq<DiskEntry> = sv;
    let mut k: usize = 0;
    proof {
        assert(names.take(0) =~= Seq::<Seq<char>>::empty());
        assert(sv.take(0) =~= Seq::<DiskEntry>::empty());
        assert(targets@.map_values(|t: PartitionTarget| t@) =~= Seq::<TargetView>::empty());
        assert(h0 + targets@.map_values(|t: PartitionTarget| (t@, min)) =~= h0);
        assert(disks_view(next_pool@) =~= subtract_chunk(sv.take(0), min));
        assert(cur =~= disks_view(next_pool@) + sv.skip(0));
    }
    while k < s.len()
        invariant
            sv == disks_view(s@),
            sorted_by_size(sv),
            sv.len() >= 2,
            min == sv[0].1,
            names == entry_names(sv),
            k <= s.len(),
            round_targets(names.take(k as int), t0, min)
                == (targets@.map_values(|t: PartitionTarget| t@), track_view(tracker@)),
            disks_view(next_pool@) == subtract_chunk(sv.take(k as int), min),
            cur == disks_view(next_pool@) + sv.skip(k as int),
            forall|q: Seq<char>| #[trigger] name_total(d, q) <= u64::MAX,
            forall|q: Seq<char>| #[trigger] pieces_of(h0, q) + name_count(sv, q) < u32::MAX,
            forall|q: Seq<char>|
                #![trigger pieces_of(h0, q)]
                pieces_of(h0 + targets@.map_values(|t: PartitionTarget| (t@, min)), q) == pieces_of(h0, q)
                    + name_count(sv.take(k as int), q),
            t0.len() == tracker@.len(),
            forall|j: int| 0 <= j < t0.len() ==> #[trigger] track_view(tracker@)[j].0 == t0[j].0,
            tracker_matches(track_view(tracker@), h0 + targets@.map_values(|t: PartitionTarget| (t@, min))),
            names_known(sv, t0),
            bytes_balance(h0 + targets@.map_values(|t: PartitionTarget| (t@, min)), cur, d),
            offsets_follow_history(h0 + targets@.map_values(|t: PartitionTarget| (t@, min))),
            targets@.len() == k,
        decreases s.len() - k,
    {
        let ghost hist = h0 + targets@.map_values(|t: PartitionTarget| (t@, min));
        let ghost m = sv[k as int].0;
        let ghost tv = track_view(tracker@);
        proof {
            lemma_first_index_same_names(t0, tv, m);
            lemma_first_index(tv, m);
            assert(first_index(t0, sv[k as int].0) >= 0);
            assert(sv[k as int].1 >= min);
            assert(cur[k as int] == sv[k as int]);
            lemma_name_total_ge(cur, k as int);
            assert(name_total(d, m) <= u64::MAX);
            assert(pieces_of(hist, m) == pieces_of(h0, m) + name_count(sv.take(k as int), m));
            assert(pieces_of(h0, m) + name_count(sv, m) < u32::MAX);
            lemma_name_count_prefix(sv, k + 1, m);
            assert(sv.take(k + 1).drop_last() =~= sv.take(k as int));
            assert(sv.take(k + 1).last() == sv[k as int]);
        }
        let pos = track_find(&tracker, &s[k].0);
        let (o, i) = match pos {
            Some(j) => (tracker[j].1, tracker[j].2),
            None => (0u64, 1u32),
        };
        proof {
            assert(o == bytes_of(hist, m));
            assert(i == 1 + pieces_of(hist, m));
        }
        let name = s[k].0.clone();
        let ghost old_targets = targets@;
        let ghost old_tracker = tracker@;
        let newt = PartitionTarget { disk_name: name, partition_index: i, start_offset_bytes: o };
        targets.push(newt);
        match pos {
            Some(j) => {
                let kept = tracker[j].0.clone();
                tracker.set(j, (kept, o + min, i + 1));
            },
            None => {},
        }
        let rest = s[k].0.clone();
        let ghost old_next = next_pool@;
        next_pool.push((rest, s[k].1 - min));
        proof {
            let x = (TargetView { disk_name: m, partition_index: i, start_offset_bytes: o }, min);
            let hist2 = h0 + targets@.map_values(|t: PartitionTarget| (t@, min));
            assert(hist2 =~= hist.push(x));
            lemma_bytes_push(hist, x);
            lemma_history_push(hist, x);
            assert(disks_view(next_pool@) =~= disks_view(old_next).push((m, (sv[k as int].1 - min) as u64)));
            let nm = names.take(k + 1);
            assert(nm.drop_last() =~= names.take(k as int));
            assert(nm.last() == m);
            assert(targets@.map_values(|t: PartitionTarget| t@)
                =~= old_targets.map_values(|t: PartitionTarget| t@).push(x.0));
            let tv2 = track_view(tracker@);
            assert(tv2 =~= advance_track(tv, m, min));
            assert forall|j: int| 0 <= j < t0.len() implies #[trigger] tv2[j].0 == t0[j].0 by {
                assert(tv2[j].0 == tv[j].0);
            }
            assert forall|q: Seq<char>| #[trigger] first_index(tv2, q) >= 0 implies {
                &&& tv2[first_index(tv2, q)].1 == bytes_of(hist2, q)
                &&& tv2[first_index(tv2, q)].2 == 1 + pieces_of(hist2, q)
            } by {
                lemma_first_index_same_names(tv, tv2, q);
                lemma_first_index(tv, q);
                assert(first_index(tv, q) >= 0);
            }
            assert(sv.take(k + 1).drop_last() =~= sv.take(k as int));
            assert(sv.take(k + 1).last() == sv[k as int]);
            assert forall|q: Seq<char>| pieces_of(hist2, q) == #[trigger] pieces_of(h0, q) + name_count(sv.take(k + 1), q) by {
                assert(pieces_of(hist, q) == pieces_of(h0, q) + name_count(sv.take(k as int), q));
            }
            assert(disks_view(next_pool@) =~= subtract_chunk(sv.take(k + 1), min));
            let newcur = cur.update(k as int, (m, (sv[k as int].1 - min) as u64));
            assert(newcur =~= disks_view(next_pool@) + sv.skip(k + 1));
            assert forall|q: Seq<char>| #[trigger] bytes_of(hist2, q) + name_total(newcur, q) == name_total(d, q) by {
                lemma_name_total_update(cur, k as int, (sv[k as int].1 - min) as u64, q);
                assert(bytes_of(hist, q) + name_total(cur, q) == name_total(d, q));
            }
            cur = newcur;
        }
        k = k + 1;
    }
    proof {
        assert(names.take(s.len() as int) =~= names);
        assert(sv.take(s.len() as int) =~= sv);
        assert(sv.skip(s.len() as int) =~= Seq::<DiskEntry>::empty());
        assert(cur =~= disks_view(next_pool@));
        assert forall|j: int| 0 <= j < old(tracker)@.len() implies #[trigger] tracker@[j].0@ == old(tracker)@[j].0@ by {
            assert(track_view(tracker@)[j].0 == t0[j].0);
        }
    }
    (targets, next_pool)
}

fn slice_core(
    pool_in: Vec<(String, u64)>,
    tracker_in: Vec<(String, u64, u32)>,
    Ghost(d): Ghost<Seq<DiskEntry>>,
) -> (r: Vec<GhsSlicePlan>)
    requires
        plannable(d),
        disks_view(pool_in@) == d,
        track_view(tracker_in@) == initial_track(d),
    ensures
        plans_view(r@) == ghs_blueprint(d),
        offsets_follow_history(pieces(plans_view(r@))),
        covers_every_byte(d, plans_view(r@)),
        slices_well_formed(plans_view(r@)),
{
    let mut pool = pool_in;
    let mut tracker = tracker_in;
    let mut slice_index: u32 = 1;
    let mut blueprints: Vec<GhsSlicePlan> = Vec::new();
    let ghost n: int = d.len() as int;
    let ghost mut rounds: int = 0;
    proof {
        lemma_keep_positive_len(d);
        assert(plans_view(blueprints@) =~= Seq::<PlanView>::empty());
        assert(Seq::<PlanView>::empty() + ghs_rounds(d, initial_track(d), 1) =~= ghs_rounds(d, initial_track(d), 1));
        let t0 = track_view(tracker@);
        let h: Seq<(TargetView, u64)> = seq![];
        assert(pieces(plans_view(blueprints@)) =~= h);
        assert forall|q: Seq<char>| #[trigger] first_index(t0, q) >= 0 implies {
            &&& t0[first_index(t0, q)].1 == bytes_of(h, q)
            &&& t0[first_index(t0, q)].2 == 1 + pieces_of(h, q)
        } by {
            lemma_first_index(t0, q);
        }
        assert forall|k: int| 0 <= k < d.len() implies first_index(t0, #[trigger] d[k].0) >= 0 by {
            lemma_first_index(t0, d[k].0);
            assert(t0[k].0 == d[k].0);
        }
    }
    loop
        invariant
            n == d.len(),
            plannable(d),
            plans_view(blueprints@) + ghs_rounds(disks_view(pool@), track_view(tracker@), slice_index)
                == ghs_blueprint(d),
            slice_index == 1 + rounds,
            0 <= rounds,
            blueprints@.len() == rounds,
            keep_positive(disks_view(pool@)).len() + rounds <= n,
            forall|q: Seq<char>| #[trigger] pieces_of(pieces(plans_view(blueprints@)), q) <= rounds * name_count(d, q),
            forall|q: Seq<char>| #[trigger] name_count(disks_view(pool@), q) <= name_count(d, q),
            offsets_follow_history(pieces(plans_view(blueprints@))),
            tracker_matches(track_view(tracker@), pieces(plans_view(blueprints@))),
            names_known(disks_view(pool@), track_view(tracker@)),
            bytes_balance(pieces(plans_view(blueprints@)), disks_view(pool@), d),
            slices_well_formed(plans_view(blueprints@)),
            forall|k: int| 0 <= k < blueprints@.len() ==> #[trigger] plans_view(blueprints@)[k].targets.len() >= 2,
        decreases keep_positive(disks_view(pool@)).len(),
    {
        let ghost pv = disks_view(pool@);
        let ghost t0 = track_view(tracker@);
        let ghost h = pieces(plans_view(blueprints@));
        let p = keep_positive_exec(&pool);
        proof {
            lemma_keep_positive_len(pv);
        }
        if p.len() == 0 {
            proof {
                assert(ghs_rounds(pv, t0, slice_index) =~= Seq::<PlanView>::empty());
                assert(plans_view(blueprints@) + Seq::<PlanView>::empty() =~= plans_view(blueprints@));
                assert forall|q: Seq<char>| #[trigger] bytes_of(pieces(plans_view(blueprints@)), q) == name_total(d, q) by {
                    lemma_name_total_zero(pv, q);
                }
            }
            return blueprints;
        }
        let s = sort_by_size_exec(&p);
        let ghost kp = disks_view(p@);
        let ghost sv = disks_view(s@);
        proof {
            lemma_sort_props(kp);
            lemma_sort_members(kp);
            lemma_keep_positive_members(pv);
            assert forall|k: int| 0 <= k < sv.len() implies first_index(t0, #[trigger] sv[k].0) >= 0 && sv[k].1 > 0 by {
                let m1 = choose|m: int| 0 <= m < kp.len() && sv[k] == kp[m];
                let m2 = choose|m: int| 0 <= m < pv.len() && kp[m1] == pv[m];
                assert(first_index(t0, pv[m2].0) >= 0);
            }
            assert forall|q: Seq<char>| #[trigger] bytes_of(h, q) + name_total(sv, q) == name_total(d, q) by {
                lemma_name_total_keep_positive(pv, q);
                lemma_name_total_sort(kp, q);
            }
        }
        let min = s[0].1;
        if s.len() < 2 {
            let pos = track_find(&tracker, &s[0].0);
            let (o, i) = match pos {
                Some(j) => (tracker[j].1, tracker[j].2),
                None => (0u64, 1u32),
            };
            let name = s[0].0.clone();
            let mut targets: Vec<PartitionTarget> = Vec::new();
            targets.push(PartitionTarget { disk_name: name, partition_index: i, start_offset_bytes: o });
            let plan = GhsSlicePlan {
                slice_index,
                chunk_size_bytes: min,
                raid_type: GhsRaidType::SafeSingle,
                targets,
            };
            let ghost old_b = blueprints@;
            blueprints.push(plan);
            proof {
                let tvw = TargetView { disk_name: sv[0].0, partition_index: i, start_offset_bytes: o };
                let pl = PlanView {
                    slice_index: slice_index,
                    chunk_size_bytes: min,
                    raid_type: GhsRaidType::SafeSingle,
                    targets: seq![tvw],
                };
                assert(plan@.targets =~= pl.targets);
                assert(ghs_rounds(pv, t0, slice_index) == seq![pl]);
                assert(plans_view(blueprints@) =~= plans_view(old_b).push(pl));
                assert(plans_view(old_b) + seq![pl] =~= plans_view(old_b).push(pl));
                lemma_first_index(t0, sv[0].0);
                lemma_pieces_push(plans_view(old_b), pl);
                let x = (tvw, min);
                assert(plan_pieces(pl) =~= seq![x]);
                assert(h + seq![x] =~= h.push(x));
                lemma_history_push(h, x);
                lemma_bytes_push(h, x);
                assert(sv.drop_last() =~= Seq::<DiskEntry>::empty());
                assert(pieces(plans_view(blueprints@)) =~= h.push(x));
                assert forall|q: Seq<char>| #[trigger] bytes_of(pieces(plans_view(blueprints@)), q) == name_total(d, q) by {
                    assert(bytes_of(h, q) + name_total(sv, q) == name_total(d, q));
                    assert(name_total(sv, q) == name_total(sv.drop_last(), q) + if sv.last().0 == q {
                        sv.last().1 as nat
                    } else {
                        0
                    });
                }
                assert(sv[0].1 > 0);
                lemma_well_formed_push(plans_view(old_b), pl);
            }
            return blueprints;
        }
        proof {
            assert forall|q: Seq<char>| #[trigger] pieces_of(h, q) + name_count(sv, q) < u32::MAX by {
                let c = name_count(d, q);
                lemma_name_count_sort(kp, q);
                lemma_name_count_keep_positive(pv, q);
                assert(name_count(pv, q) <= c);
                assert(pieces_of(h, q) <= rounds * c);
                assert(c * n < u32::MAX);
                assert(pieces_of(h, q) + name_count(sv, q) < u32::MAX) by (nonlinear_arith)
                    requires
                        pieces_of(h, q) <= rounds * c,
                        name_count(sv, q) <= c,
                        rounds + 2 <= n,
                        c * n < u32::MAX,
                        rounds >= 0,
                ;
            }
            let q0 = sv[0].0;
            lemma_name_count_ge(sv, 0);
            lemma_name_count_sort(kp, q0);
            lemma_name_count_keep_positive(pv, q0);
            assert(name_count(pv, q0) <= name_count(d, q0));
            assert(name_count(d, q0) * n < u32::MAX);
            assert(n < u32::MAX) by (nonlinear_arith)
                requires
                    name_count(d, q0) >= 1,
                    name_count(d, q0) * n < u32::MAX,
                    n >= 0,
            ;
        }
        let (targets, next_pool) = cut_round(&s, &mut tracker, min, Ghost(h), Ghost(d));
        let plan = GhsSlicePlan {
            slice_index,
            chunk_size_bytes: min,
            raid_type: if s.len() == 2 { GhsRaidType::Raid1 } else { GhsRaidType::Raid5 },
            targets,
        };
        let ghost old_b = blueprints@;
        blueprints.push(plan);
        proof {
            let names = entry_names(sv);
            let r = round_targets(names, t0, min);
            let pl = PlanView {
                slice_index: slice_index,
                chunk_size_bytes: min,
                raid_type: raid_for_count(sv.len()),
                targets: r.0,
            };
            assert(plan@ == pl);
            let nxt = subtract_chunk(sv, min);
            assert(ghs_rounds(pv, t0, slice_index) == seq![pl] + ghs_rounds(nxt, r.1, (slice_index + 1) as u32));
            assert(plans_view(blueprints@) =~= plans_view(old_b).push(pl));
            assert(plans_view(old_b) + (seq![pl] + ghs_rounds(nxt, r.1, (slice_index + 1) as u32))
                =~= plans_view(old_b).push(pl) + ghs_rounds(nxt, r.1, (slice_index + 1) as u32));
            assert(nxt[0].1 == 0);
            lemma_keep_positive_len(nxt);
            lemma_pieces_push(plans_view(old_b), pl);
            assert(plan_pieces(pl) =~= targets@.map_values(|t: PartitionTarget| (t@, min)));
            assert(r.0.len() == sv.len());
            assert(min > 0);
            let h2 = pieces(plans_view(blueprints@));
            assert(h2 =~= h + targets@.map_values(|t: PartitionTarget| (t@, min)));
            assert forall|q: Seq<char>| #[trigger] pieces_of(h2, q) <= (rounds + 1) * name_count(d, q) by {
                let c = name_count(d, q);
                assert(pieces_of(h2, q) == pieces_of(h, q) + name_count(sv, q));
                lemma_name_count_sort(kp, q);
                lemma_name_count_keep_positive(pv, q);
                assert(pieces_of(h, q) <= rounds * c);
                assert(pieces_of(h2, q) <= (rounds + 1) * c) by (nonlinear_arith)
                    requires
                        pieces_of(h2, q) == pieces_of(h, q) + name_count(sv, q),
                        pieces_of(h, q) <= rounds * c,
                        name_count(sv, q) <= c,
                ;
            }
            assert forall|q: Seq<char>| #[trigger] name_count(disks_view(next_pool@), q) <= name_count(d, q) by {
                lemma_name_count_subtract(sv, min, q);
                lemma_name_count_sort(kp, q);
                lemma_name_count_keep_positive(pv, q);
            }
            let t1 = track_view(tracker@);
            assert forall|k: int| 0 <= k < nxt.len() implies first_index(t1, #[trigger] nxt[k].0) >= 0 by {
                lemma_first_index_same_names(t0, t1, nxt[k].0);
                assert(nxt[k].0 == sv[k].0);
                assert(first_index(t0, sv[k].0) >= 0);
            }
            lemma_well_formed_push(plans_view(old_b), pl);
            rounds = rounds + 1;
        }
        pool = next_pool;
        slice_index = slice_index + 1;
    }
}


/// The hybrid slicing backend: the plan of [`PureGhsEngine`].
pub struct GhsBackend;

impl StorageBackend for GhsBackend {
    open spec fn admits(&self, disks: Seq<DiskEntry>) -> bool {
        plannable(disks)
    }

    open spec fn spec_blueprint(&self, disks: Seq<DiskEntry>) -> Result<Seq<PlanView>, Seq<char>> {
        Ok(ghs_blueprint(disks))
    }

    fn generate_blueprint(&self, _pool_name: &str, disks: &[(String, u64)]) -> (r: Result<
        Vec<GhsSlicePlan>,
        String,
    >) {
        let pure_engine = PureGhsEngine::new(clone_disks(disks));
        let blueprint = pure_engine.generate_slicing_blueprint();
        Ok(blueprint)
    }
}

} // verus!
