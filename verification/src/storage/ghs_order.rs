//! The hybrid plan does not depend on the order in which distinctly named
//! disks are given: only equal-size disks may trade places within a slice.

use vstd::prelude::*;
use vstd::multiset::Multiset;
use super::ghs::{
    DiskEntry, TrackEntry, PlanView, TargetView, keep_positive, insert_by_size, sort_by_size, subtract_chunk,
    sorted_by_size, name_count, lookup_track, next_piece, advance_track, round_targets, entry_names, first_index,
    ghs_rounds, ghs_blueprint, initial_track, lemma_sort_props, lemma_first_index, lemma_keep_positive_len,
    lemma_first_index_same_names, lemma_name_count_keep_positive, lemma_name_count_sort, lemma_name_count_subtract,
};

verus! {

broadcast use vstd::seq_lib::group_to_multiset_ensures;

proof fn lemma_keep_positive_multiset(s: Seq<DiskEntry>)
    ensures
        keep_positive(s).to_multiset() =~= s.to_multiset().filter(|e: DiskEntry| e.1 > 0),
    decreases s.len(),
{
    broadcast use vstd::multiset::group_multiset_axioms;
    if s.len() == 0 {
        assert(s.to_multiset() =~= Multiset::empty());
    } else {
        let d = s.drop_last();
        let x = s.last();
        lemma_keep_positive_multiset(d);
        assert(s =~= d.push(x));
        if x.1 > 0 {
            assert(keep_positive(s) =~= keep_positive(d).push(x));
        }
    }
}

proof fn lemma_insert_multiset(s: Seq<DiskEntry>, x: DiskEntry)
    ensures
        insert_by_size(s, x).to_multiset() =~= s.to_multiset().insert(x),
    decreases s.len(),
{
    broadcast use vstd::multiset::group_multiset_axioms;
    if s.len() == 0 {
        assert(seq![x] =~= s.push(x));
    } else if s.last().1 <= x.1 {
    } else {
        let d = s.drop_last();
        lemma_insert_multiset(d, x);
        assert(s =~= d.push(s.last()));
    }
}

proof fn lemma_sort_multiset(s: Seq<DiskEntry>)
    ensures
        sort_by_size(s).to_multiset() =~= s.to_multiset(),
    decreases s.len(),
{
    broadcast use vstd::multiset::group_multiset_axioms;
    if s.len() > 0 {
        let d = s.drop_last();
        lemma_sort_multiset(d);
        lemma_insert_multiset(sort_by_size(d), s.last());
        assert(s =~= d.push(s.last()));
    }
}

proof fn lemma_subtract_perm(s1: Seq<DiskEntry>, s2: Seq<DiskEntry>, c: u64)
    requires
        s1.to_multiset() == s2.to_multiset(),
    ensures
        subtract_chunk(s1, c).to_multiset() =~= subtract_chunk(s2, c).to_multiset(),
    decreases s1.len(),
{
    broadcast use vstd::multiset::group_multiset_axioms;
    if s1.len() == 0 {
        assert(s2.to_multiset().len() == 0);
        assert(subtract_chunk(s1, c) =~= Seq::<DiskEntry>::empty());
        assert(subtract_chunk(s2, c) =~= Seq::<DiskEntry>::empty());
    } else {
        let d = s1.drop_last();
        let x = s1.last();
        assert(s1 =~= d.push(x));
        assert(s2.to_multiset().count(x) > 0);
        assert(s2.contains(x));
        let i = choose|i: int| 0 <= i < s2.len() && s2[i] == x;
        let r = s2.remove(i);
        assert(r.to_multiset() =~= d.to_multiset());
        lemma_subtract_perm(d, r, c);
        let g = (x.0, (x.1 - c) as u64);
        assert(subtract_chunk(s1, c) =~= subtract_chunk(d, c).push(g));
        assert(subtract_chunk(r, c) =~= subtract_chunk(s2, c).remove(i));
        assert(subtract_chunk(s2, c)[i] == g);
        assert(subtract_chunk(s2, c).to_multiset().count(g) > 0);
        assert(subtract_chunk(s2, c).to_multiset() =~= subtract_chunk(s2, c).to_multiset().remove(g).insert(g));
    }
}

proof fn lemma_name_count_remove(s: Seq<DiskEntry>, i: int, q: Seq<char>)
    requires
        0 <= i < s.len(),
    ensures
        name_count(s.remove(i), q) + (if s[i].0 == q { 1nat } else { 0nat }) == name_count(s, q),
    decreases s.len(),
{
    if i == s.len() - 1 {
        assert(s.remove(i) =~= s.drop_last());
    } else {
        lemma_name_count_remove(s.drop_last(), i, q);
        assert(s.remove(i).drop_last() =~= s.drop_last().remove(i));
        assert(s.remove(i).last() == s.last());
    }
}

proof fn lemma_name_count_perm(s1: Seq<DiskEntry>, s2: Seq<DiskEntry>, q: Seq<char>)
    requires
        s1.to_multiset() == s2.to_multiset(),
    ensures
        name_count(s1, q) == name_count(s2, q),
    decreases s1.len(),
{
    broadcast use vstd::multiset::group_multiset_axioms;
    if s1.len() == 0 {
        assert(s2.to_multiset().len() == 0);
    } else {
        let d = s1.drop_last();
        let x = s1.last();
        assert(s1 =~= d.push(x));
        assert(s2.to_multiset().count(x) > 0);
        assert(s2.contains(x));
        let i = choose|i: int| 0 <= i < s2.len() && s2[i] == x;
        let r = s2.remove(i);
        assert(r.to_multiset() =~= d.to_multiset());
        lemma_name_count_perm(d, r, q);
        lemma_name_count_remove(s2, i, q);
    }
}

/// Two sorted sequences with the same entries start with the same size.
proof fn lemma_sorted_min(s1: Seq<DiskEntry>, s2: Seq<DiskEntry>)
    requires
        s1.to_multiset() == s2.to_multiset(),
        sorted_by_size(s1),
        sorted_by_size(s2),
        s1.len() > 0,
    ensures
        s1[0].1 == s2[0].1,
{
    assert(s1.to_multiset().count(s1[0]) > 0);
    assert(s2.contains(s1[0]));
    assert(s1.contains(s2[0])) by {
        assert(s2.to_multiset().count(s2[0]) > 0);
    }
}

/// A tracker value after a piece of `c` bytes.
pub open spec fn advanced(v: Option<(u64, u32)>, c: u64) -> Option<(u64, u32)> {
    match v {
        Some(x) => Some(((x.0 + c) as u64, (x.1 + 1) as u32)),
        None => None,
    }
}

/// The target that disk `n` gets from the tracker `t`.
pub open spec fn target_of(n: Seq<char>, t: Seq<TrackEntry>) -> TargetView {
    TargetView { disk_name: n, partition_index: next_piece(t, n).1, start_offset_bytes: next_piece(t, n).0 }
}

proof fn lemma_advance_lookup(t: Seq<TrackEntry>, n: Seq<char>, c: u64, q: Seq<char>)
    ensures
        lookup_track(advance_track(t, n, c), q) == if q == n {
            advanced(lookup_track(t, n), c)
        } else {
            lookup_track(t, q)
        },
{
    let j = first_index(t, n);
    lemma_first_index(t, n);
    lemma_first_index(t, q);
    if j >= 0 {
        let t2 = advance_track(t, n, c);
        assert(t2.len() == t.len());
        assert forall|k: int| 0 <= k < t.len() implies #[trigger] t2[k].0 == t[k].0 by {}
        lemma_first_index_same_names(t, t2, q);
        if q != n && first_index(t, q) >= 0 {
            assert(first_index(t, q) != j);
        }
    }
}

proof fn lemma_round(s: Seq<DiskEntry>, t: Seq<TrackEntry>, c: u64)
    requires
        forall|q: Seq<char>| #[trigger] name_count(s, q) <= 1,
    ensures
        round_targets(entry_names(s), t, c).0.len() == s.len(),
        forall|k: int| 0 <= k < s.len() ==> #[trigger] round_targets(entry_names(s), t, c).0[k] == target_of(s[k].0, t),
        forall|q: Seq<char>|
            #[trigger] lookup_track(round_targets(entry_names(s), t, c).1, q) == if name_count(s, q) > 0 {
                advanced(lookup_track(t, q), c)
            } else {
                lookup_track(t, q)
            },
    decreases s.len(),
{
    if s.len() > 0 {
        let d = s.drop_last();
        let x = s.last();
        assert(entry_names(s).drop_last() =~= entry_names(d));
        assert(entry_names(s).last() == x.0);
        assert forall|q: Seq<char>| #[trigger] name_count(d, q) <= 1 by {
            assert(name_count(s, q) <= 1);
        }
        lemma_round(d, t, c);
        let prev = round_targets(entry_names(d), t, c);
        assert(name_count(s, x.0) <= 1);
        assert(name_count(d, x.0) == 0);
        assert(lookup_track(prev.1, x.0) == lookup_track(t, x.0));
        assert(next_piece(prev.1, x.0) == next_piece(t, x.0));
        let r = round_targets(entry_names(s), t, c);
        assert forall|k: int| 0 <= k < s.len() implies #[trigger] r.0[k] == target_of(s[k].0, t) by {
            if k < d.len() {
                assert(r.0[k] == prev.0[k]);
                assert(s[k] == d[k]);
            }
        }
        assert forall|q: Seq<char>|
            #[trigger] lookup_track(r.1, q) == if name_count(s, q) > 0 {
                advanced(lookup_track(t, q), c)
            } else {
                lookup_track(t, q)
            } by {
            lemma_advance_lookup(prev.1, x.0, c, q);
            assert(lookup_track(prev.1, q) == if name_count(d, q) > 0 {
                advanced(lookup_track(t, q), c)
            } else {
                lookup_track(t, q)
            });
        }
    } else {
        assert(entry_names(s) =~= Seq::<Seq<char>>::empty());
    }
}

/// Two plans that agree slice by slice in number, chunk, RAID level and
/// width, and whose slices hold the same targets, possibly in another order.
pub open spec fn plans_match(a: Seq<PlanView>, b: Seq<PlanView>) -> bool {
    &&& a.len() == b.len()
    &&& forall|i: int|
        0 <= i < a.len() ==> {
            &&& (#[trigger] a[i]).slice_index == b[i].slice_index
            &&& a[i].chunk_size_bytes == b[i].chunk_size_bytes
            &&& a[i].raid_type == b[i].raid_type
            &&& a[i].targets.len() == b[i].targets.len()
            &&& forall|x: TargetView| a[i].targets.contains(x) <==> b[i].targets.contains(x)
        }
}

proof fn lemma_rounds_match(p1: Seq<DiskEntry>, t1: Seq<TrackEntry>, p2: Seq<DiskEntry>, t2: Seq<TrackEntry>, idx: u32)
    requires
        p1.to_multiset() == p2.to_multiset(),
        forall|q: Seq<char>| #[trigger] name_count(p1, q) <= 1,
        forall|q: Seq<char>| #[trigger] lookup_track(t1, q) == lookup_track(t2, q),
    ensures
        plans_match(ghs_rounds(p1, t1, idx), ghs_rounds(p2, t2, idx)),
    decreases keep_positive(p1).len(),
{
    let k1 = keep_positive(p1);
    let k2 = keep_positive(p2);
    lemma_keep_positive_multiset(p1);
    lemma_keep_positive_multiset(p2);
    assert(k1.to_multiset() == k2.to_multiset());
    assert(k1.len() == k2.len()) by {
        assert(k1.to_multiset().len() == k1.len());
        assert(k2.to_multiset().len() == k2.len());
    }
    if k1.len() == 0 {
        return;
    }
    let s1 = sort_by_size(k1);
    let s2 = sort_by_size(k2);
    lemma_sort_multiset(k1);
    lemma_sort_multiset(k2);
    lemma_sort_props(k1);
    lemma_sort_props(k2);
    lemma_sorted_min(s1, s2);
    let min = s1[0].1;
    assert forall|q: Seq<char>| #[trigger] name_count(s1, q) <= 1 && name_count(s2, q) == name_count(s1, q) by {
        lemma_name_count_sort(k1, q);
        lemma_name_count_keep_positive(p1, q);
        lemma_name_count_perm(s1, s2, q);
        assert(name_count(p1, q) <= 1);
    }
    let a = ghs_rounds(p1, t1, idx);
    let b = ghs_rounds(p2, t2, idx);
    if s1.len() < 2 {
        assert(s2.to_multiset().count(s2[0]) > 0);
        assert(s1.contains(s2[0]));
        assert(s1[0] == s2[0]);
        assert(lookup_track(t1, s1[0].0) == lookup_track(t2, s1[0].0));
        assert(a =~= b);
    } else {
        let r1 = round_targets(entry_names(s1), t1, min);
        let r2 = round_targets(entry_names(s2), t2, min);
        assert forall|q: Seq<char>| #[trigger] name_count(s2, q) <= 1 by {
            assert(name_count(s1, q) <= 1 && name_count(s2, q) == name_count(s1, q));
        }
        lemma_round(s1, t1, min);
        lemma_round(s2, t2, min);
        assert forall|n: Seq<char>| #[trigger] target_of(n, t1) == target_of(n, t2) by {
            assert(lookup_track(t1, n) == lookup_track(t2, n));
        }
        assert forall|x: TargetView| r1.0.contains(x) <==> r2.0.contains(x) by {
            if r1.0.contains(x) {
                let k = choose|k: int| 0 <= k < r1.0.len() && r1.0[k] == x;
                assert(r1.0[k] == target_of(s1[k].0, t1));
                assert(s1.to_multiset().count(s1[k]) > 0);
                assert(s2.contains(s1[k]));
                let j = choose|j: int| 0 <= j < s2.len() && s2[j] == s1[k];
                assert(r2.0[j] == target_of(s2[j].0, t2));
                assert(target_of(s1[k].0, t1) == target_of(s1[k].0, t2));
                assert(r2.0.contains(x));
            }
            if r2.0.contains(x) {
                let k = choose|k: int| 0 <= k < r2.0.len() && r2.0[k] == x;
                assert(r2.0[k] == target_of(s2[k].0, t2));
                assert(s2.to_multiset().count(s2[k]) > 0);
                assert(s1.contains(s2[k]));
                let j = choose|j: int| 0 <= j < s1.len() && s1[j] == s2[k];
                assert(r1.0[j] == target_of(s1[j].0, t1));
                assert(target_of(s2[k].0, t1) == target_of(s2[k].0, t2));
                assert(r1.0.contains(x));
            }
        }
        let n1 = subtract_chunk(s1, min);
        let n2 = subtract_chunk(s2, min);
        lemma_subtract_perm(s1, s2, min);
        assert forall|q: Seq<char>| #[trigger] name_count(n1, q) <= 1 by {
            lemma_name_count_subtract(s1, min, q);
        }
        assert forall|q: Seq<char>| #[trigger] lookup_track(r1.1, q) == lookup_track(r2.1, q) by {
            assert(name_count(s2, q) == name_count(s1, q));
            assert(lookup_track(t1, q) == lookup_track(t2, q));
        }
        assert(n1[0].1 == 0);
        lemma_keep_positive_len(n1);
        lemma_rounds_match(n1, r1.1, n2, r2.1, (idx + 1) as u32);
        let ra = ghs_rounds(n1, r1.1, (idx + 1) as u32);
        let rb = ghs_rounds(n2, r2.1, (idx + 1) as u32);
        assert forall|i: int| 0 <= i < a.len() implies {
            &&& (#[trigger] a[i]).slice_index == b[i].slice_index
            &&& a[i].chunk_size_bytes == b[i].chunk_size_bytes
            &&& a[i].raid_type == b[i].raid_type
            &&& a[i].targets.len() == b[i].targets.len()
            &&& forall|x: TargetView| a[i].targets.contains(x) <==> b[i].targets.contains(x)
        } by {
            if i > 0 {
                assert(a[i] == ra[i - 1]);
                assert(b[i] == rb[i - 1]);
            }
        }
    }
}

proof fn lemma_name_count_pos(s: Seq<DiskEntry>, q: Seq<char>)
    ensures
        name_count(s, q) > 0 <==> exists|k: int| 0 <= k < s.len() && s[k].0 == q,
    decreases s.len(),
{
    if s.len() > 0 {
        lemma_name_count_pos(s.drop_last(), q);
        if exists|k: int| 0 <= k < s.len() - 1 && s.drop_last()[k].0 == q {
            let k = choose|k: int| 0 <= k < s.len() - 1 && s.drop_last()[k].0 == q;
            assert(s[k].0 == q);
        }
        if exists|k: int| 0 <= k < s.len() && s[k].0 == q {
            let k = choose|k: int| 0 <= k < s.len() && s[k].0 == q;
            if k < s.len() - 1 {
                assert(s.drop_last()[k].0 == q);
            }
        }
    }
}

proof fn lemma_initial_lookup(d: Seq<DiskEntry>, q: Seq<char>)
    ensures
        lookup_track(initial_track(d), q) == if name_count(d, q) > 0 {
            Some((0u64, 1u32))
        } else {
            None
        },
{
    let t = initial_track(d);
    lemma_first_index(t, q);
    lemma_name_count_pos(d, q);
    if exists|k: int| 0 <= k < d.len() && d[k].0 == q {
        let k = choose|k: int| 0 <= k < d.len() && d[k].0 == q;
        assert(t[k].0 == q);
    }
    if first_index(t, q) >= 0 {
        assert(d[first_index(t, q)].0 == q);
    }
}

/// Giving distinctly named disks in another order changes the plan only in
/// the order of the targets within a slice: the slices keep their number,
/// chunk, RAID level and width, and each holds the same targets (disk,
/// partition number and offset).
pub proof fn law_plan_ignores_disk_order(d1: Seq<DiskEntry>, d2: Seq<DiskEntry>)
    requires
        d1.to_multiset() == d2.to_multiset(),
        forall|q: Seq<char>| #[trigger] name_count(d1, q) <= 1,
    ensures
        plans_match(ghs_blueprint(d1), ghs_blueprint(d2)),
{
    assert forall|q: Seq<char>| #[trigger] lookup_track(initial_track(d1), q) == lookup_track(initial_track(d2), q) by {
        lemma_initial_lookup(d1, q);
        lemma_initial_lookup(d2, q);
        lemma_name_count_perm(d1, d2, q);
    }
    lemma_rounds_match(d1, initial_track(d1), d2, initial_track(d2), 1);
}

} // verus!
