//! Grouping model instances into draw calls.

use vstd::prelude::*;
use crate::components::Point3;

verus! {

/// A model at height `z` is drawn when it is at most 49 levels below the
/// camera and not above it.
pub open spec fn spec_in_draw_window(z: int, camera_z: int) -> bool {
    z <= camera_z && z > camera_z - 50
}

/// Whether a model standing at height `z` is within the drawn layers for a
/// camera at height `camera_z`.
pub fn in_draw_window(z: i32, camera_z: i32) -> (shown: bool)
    requires
        camera_z >= i32::MIN + 50,
    ensures
        shown == spec_in_draw_window(z as int, camera_z as int),
{
    z <= camera_z && z > camera_z - 50
}

/// Instance ranges for the model groups `groups` (model index, number of
/// instances), each non-empty group taking the next run of instance slots
/// after `start`; the second component is where the runs end.
pub open spec fn instance_ranges(groups: Seq<(usize, usize)>, start: int) -> (Seq<(usize, u32, u32)>, int)
    decreases groups.len(),
{
    if groups.len() == 0 {
        (Seq::empty(), start)
    } else {
        let (front, end) = instance_ranges(groups.drop_last(), start);
        let (k, n) = groups.last();
        if n == 0 {
            (front, end)
        } else {
            (front.push((k, end as u32, (end + n) as u32)), end + n)
        }
    }
}

proof fn lemma_instance_ranges_end(groups: Seq<(usize, usize)>, start: int)
    ensures
        instance_ranges(groups, start).1 >= start,
    decreases groups.len(),
{
    if groups.len() > 0 {
        lemma_instance_ranges_end(groups.drop_last(), start);
    }
}

proof fn lemma_instance_ranges_mono(groups: Seq<(usize, usize)>, start: int, i: int)
    requires
        0 <= i <= groups.len(),
    ensures
        instance_ranges(groups.take(i), start).1 <= instance_ranges(groups, start).1,
    decreases groups.len() - i,
{
    if i < groups.len() {
        lemma_instance_ranges_mono(groups, start, i + 1);
        assert(groups.take(i + 1).drop_last() =~= groups.take(i));
    } else {
        assert(groups.take(i) =~= groups);
    }
}

/// The draw ranges of the model groups, in order: each model with at least
/// one instance gets the slots right after the previous such model's.
pub fn build_instance_ranges(groups: &Vec<(usize, usize)>) -> (ranges: Vec<(usize, u32, u32)>)
    requires
        instance_ranges(groups@, 0).1 <= usize::MAX,
    ensures
        ranges@ == instance_ranges(groups@, 0).0,
{
    let mut ranges: Vec<(usize, u32, u32)> = Vec::new();
    let mut start: usize = 0;
    let mut end: usize = 0;
    let mut i: usize = 0;
    while i < groups.len()
        invariant
            i <= groups@.len(),
            instance_ranges(groups@, 0).1 <= usize::MAX,
            ranges@ == instance_ranges(groups@.take(i as int), 0).0,
            end == instance_ranges(groups@.take(i as int), 0).1,
            start == end,
        decreases groups@.len() - i,
    {
        proof {
            lemma_instance_ranges_mono(groups@, 0, i + 1);
            assert(groups@.take(i + 1).drop_last() =~= groups@.take(i as int));
            lemma_instance_ranges_end(groups@.take(i as int), 0);
        }
        let (k, n) = groups[i];
        if n > 0 {
            end = end + n;
            ranges.push((k, start as u32, end as u32));
            start = end;
        }
        i = i + 1;
    }
    assert(groups@.take(i as int) =~= groups@);
    ranges
}

/// The model groups that have instances, in order.
pub open spec fn nonempty_groups(groups: Seq<(usize, usize)>) -> Seq<(usize, usize)>
    decreases groups.len(),
{
    if groups.len() == 0 {
        Seq::empty()
    } else {
        nonempty_groups(groups.drop_last()) + if groups.last().1 == 0 { Seq::empty() } else { seq![groups.last()] }
    }
}

/// The number of instances of all groups.
pub open spec fn total_instances(groups: Seq<(usize, usize)>) -> int
    decreases groups.len(),
{
    if groups.len() == 0 { 0 } else { total_instances(groups.drop_last()) + groups.last().1 }
}

proof fn lemma_total_nonneg(groups: Seq<(usize, usize)>)
    ensures
        total_instances(groups) >= 0,
    decreases groups.len(),
{
    if groups.len() > 0 {
        lemma_total_nonneg(groups.drop_last());
    }
}

proof fn lemma_ranges_from(groups: Seq<(usize, usize)>, start: int)
    requires
        0 <= start,
        start + total_instances(groups) <= u32::MAX,
    ensures
        ({
            let (r, end) = instance_ranges(groups, start);
            let ne = nonempty_groups(groups);
            &&& end == start + total_instances(groups)
            &&& r.len() == ne.len()
            &&& forall|i: int| 0 <= i < r.len() ==> (#[trigger] r[i]).0 == ne[i].0 && r[i].2 == r[i].1 + ne[i].1
            &&& forall|i: int| 0 <= i < r.len() ==> start <= (#[trigger] r[i]).1 && r[i].2 <= end
            &&& r.len() > 0 ==> r[0].1 == start && r.last().2 == end
            &&& r.len() == 0 ==> end == start
            &&& forall|i: int| 0 <= i < r.len() - 1 ==> (#[trigger] r[i]).2 == r[i + 1].1
        }),
    decreases groups.len(),
{
    if groups.len() > 0 {
        let d = groups.drop_last();
        lemma_total_nonneg(d);
        assert(total_instances(d) <= total_instances(groups));
        lemma_ranges_from(d, start);
        let (f, e) = instance_ranges(d, start);
        let (r, end) = instance_ranges(groups, start);
        let n = groups.last().1;
        if n != 0 {
            assert(r == f.push((groups.last().0, e as u32, (e + n) as u32)));
            let ne = nonempty_groups(groups);
            let ne0 = nonempty_groups(d);
            assert(ne =~= ne0.push(groups.last()));
            assert(e + n <= u32::MAX);
            assert((e as u32) as int == e);
            assert(((e + n) as u32) as int == e + n);
            assert forall|i: int| 0 <= i < r.len() implies (#[trigger] r[i]).0 == ne[i].0 && r[i].2 == r[i].1 + ne[i].1 by {
                if i < f.len() {
                    assert(r[i] == f[i] && ne[i] == ne0[i]);
                }
            }
            assert forall|i: int| 0 <= i < r.len() implies start <= (#[trigger] r[i]).1 && r[i].2 <= end by {
                if i < f.len() {
                    assert(r[i] == f[i]);
                }
            }
            assert forall|i: int| 0 <= i < r.len() - 1 implies (#[trigger] r[i]).2 == r[i + 1].1 by {
                if i < f.len() - 1 {
                    assert(r[i] == f[i] && r[i + 1] == f[i + 1]);
                } else {
                    assert(r[i] == f.last());
                }
            }
            if f.len() > 0 {
                assert(r[0] == f[0]);
            }
        } else {
            assert(nonempty_groups(groups) =~= nonempty_groups(d));
        }
    }
}

/// The draw ranges of the model groups, when all their instances fit in 32
/// bits: one range per group with instances, in order, each that group's
/// size long; the first starts at 0, each starts where the previous ends,
/// and the last ends at the total number of instances.
pub proof fn lemma_instance_ranges_contiguous(groups: Seq<(usize, usize)>)
    requires
        total_instances(groups) <= u32::MAX,
    ensures
        ({
            let r = instance_ranges(groups, 0).0;
            let ne = nonempty_groups(groups);
            &&& instance_ranges(groups, 0).1 == total_instances(groups)
            &&& r.len() == ne.len()
            &&& forall|i: int| 0 <= i < r.len() ==> (#[trigger] r[i]).0 == ne[i].0 && r[i].2 == r[i].1 + ne[i].1
            &&& r.len() > 0 ==> r[0].1 == 0 && r.last().2 == total_instances(groups)
            &&& forall|i: int| 0 <= i < r.len() - 1 ==> (#[trigger] r[i]).2 == r[i + 1].1
        }),
{
    lemma_ranges_from(groups, 0);
}

/// Instance groups in mathematical form: model index and instance points.
pub open spec fn group_view(g: Seq<(usize, Vec<Point3>)>) -> Seq<(usize, Seq<Point3>)> {
    Seq::new(g.len(), |i: int| (g[i].0, g[i].1@))
}

/// No model appears in two groups.
pub open spec fn keys_unique(g: Seq<(usize, Seq<Point3>)>) -> bool {
    forall|i: int, j: int| 0 <= i < g.len() && 0 <= j < g.len() && i != j ==> #[trigger] g[i].0 != #[trigger] g[j].0
}

/// The groups after an instance of model `k` at `p` is added: to the group
/// of its model, or as a new group at the end.
pub open spec fn add_instance(g: Seq<(usize, Seq<Point3>)>, k: usize, p: Point3) -> Seq<(usize, Seq<Point3>)> {
    if exists|j: int| 0 <= j < g.len() && #[trigger] g[j].0 == k {
        let j = choose|j: int| 0 <= j < g.len() && #[trigger] g[j].0 == k;
        g.update(j, (k, g[j].1.push(p)))
    } else {
        g.push((k, seq![p]))
    }
}

/// An instance is drawn when it stands on a tile within the view and
/// within the drawn layers.
pub open spec fn drawn(m: (usize, Point3, bool), camera_z: i32) -> bool {
    m.2 && spec_in_draw_window(m.1.z as int, camera_z as int)
}

/// The instance groups of the drawn instances among `models`, each model's
/// instances in order, the models in the order they first appear.
pub open spec fn instance_groups(models: Seq<(usize, Point3, bool)>, camera_z: i32) -> Seq<(usize, Seq<Point3>)>
    decreases models.len(),
{
    if models.len() == 0 {
        Seq::empty()
    } else {
        let g = instance_groups(models.drop_last(), camera_z);
        let m = models.last();
        if drawn(m, camera_z) { add_instance(g, m.0, m.1) } else { g }
    }
}

/// Groups the instances to draw by model: `models` holds each instance's
/// model index, tile point, and whether it stands on a tile within the
/// view; instances within the drawn layers below `camera_z` are kept.
pub fn group_instances(models: &Vec<(usize, Point3, bool)>, camera_z: i32) -> (groups: Vec<(usize, Vec<Point3>)>)
    requires
        camera_z >= i32::MIN + 50,
    ensures
        group_view(groups@) == instance_groups(models@, camera_z),
        keys_unique(group_view(groups@)),
{
    let mut groups: Vec<(usize, Vec<Point3>)> = Vec::new();
    let mut i: usize = 0;
    while i < models.len()
        invariant
            i <= models@.len(),
            camera_z >= i32::MIN + 50,
            group_view(groups@) == instance_groups(models@.take(i as int), camera_z),
            keys_unique(group_view(groups@)),
        decreases models@.len() - i,
    {
        proof {
            assert(models@.take(i + 1).drop_last() =~= models@.take(i as int));
            assert(models@.take(i + 1).last() == models@[i as int]);
        }
        let (k, p, on_tile) = models[i];
        let ghost g = group_view(groups@);
        if on_tile && in_draw_window(p.z, camera_z) {
            let mut j: usize = 0;
            while j < groups.len()
                invariant
                    j <= groups@.len(),
                    forall|q: int| 0 <= q < j ==> (#[trigger] groups@[q]).0 != k,
                ensures
                    j <= groups@.len(),
                    forall|q: int| 0 <= q < j ==> (#[trigger] groups@[q]).0 != k,
                    j < groups@.len() ==> groups@[j as int].0 == k,
                decreases groups@.len() - j,
            {
                if groups[j].0 == k {
                    break;
                }
                j = j + 1;
            }
            if j < groups.len() {
                let (gk, mut pts) = groups.remove(j);
                pts.push(p);
                groups.insert(j, (gk, pts));
                proof {
                    assert(g[j as int].0 == k);
                    let c = choose|c: int| 0 <= c < g.len() && #[trigger] g[c].0 == k;
                    if c != j {
                        assert(g[c].0 != g[j as int].0);
                    }
                    assert(group_view(groups@) =~= g.update(j as int, (k, g[j as int].1.push(p))));
                    assert forall|a: int, b: int| 0 <= a < groups@.len() && 0 <= b < groups@.len() && a != b
                        implies #[trigger] group_view(groups@)[a].0 != #[trigger] group_view(groups@)[b].0 by {
                        assert(group_view(groups@)[a].0 == g[a].0);
                        assert(group_view(groups@)[b].0 == g[b].0);
                    }
                }
            } else {
                let mut pts: Vec<Point3> = Vec::new();
                pts.push(p);
                groups.push((k, pts));
                proof {
                    assert(!exists|c: int| 0 <= c < g.len() && #[trigger] g[c].0 == k) by {
                        assert forall|c: int| 0 <= c < g.len() implies #[trigger] g[c].0 != k by {
                            assert(g[c].0 == groups@[c].0);
                        }
                    }
                    assert(pts@ =~= seq![p]);
                    assert(group_view(groups@) =~= g.push((k, seq![p])));
                    assert forall|a: int, b: int| 0 <= a < groups@.len() && 0 <= b < groups@.len() && a != b
                        implies #[trigger] group_view(groups@)[a].0 != #[trigger] group_view(groups@)[b].0 by {
                        if a < g.len() && b < g.len() {
                            assert(group_view(groups@)[a].0 == g[a].0);
                            assert(group_view(groups@)[b].0 == g[b].0);
                        } else if a < g.len() {
                            assert(group_view(groups@)[a].0 == g[a].0);
                        } else {
                            assert(group_view(groups@)[b].0 == g[b].0);
                        }
                    }
                }
            }
        }
        i = i + 1;
    }
    proof {
        assert(models@.take(i as int) =~= models@);
    }
    groups
}

} // verus!
