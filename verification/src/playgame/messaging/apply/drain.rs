//! Draining the whole jobs queue: every message is absorbed or applied to
//! the world, including those that applying posts, until the queue is
//! empty; then moved entities are moved and the notifications raised.

use vstd::prelude::*;
use crate::components::{JobType, CollectToolSteps, BuildingSteps, HaulSteps, MiningMode, ToolType, job_path};
use crate::region::Region;
use crate::spatial::{REGION_TILES_COUNT, idxmap, spec_idxmap, spec_mapidx};
use crate::distance::{tile_point, tile_points, nearest_index};
use crate::playgame::messaging::{MessageQueues, dirty_block_fits};
use crate::playgame::messaging::job_step::JobStep;
use super::mining::{dig_target, pick_dig_target};
use super::lumber::locate_target;
use super::world::{EntityRecord, ids_unique, has_record, record_of, index_of, can_apply, can_dig,
    can_hire, settler_of, free_tool, trade_tool, marked_tree, marked_trees, marked_tiles, chop_target,
    health_after, designations, dig_done, posts, claimed_tools, world_after, spawn_requests, spawn_view, apply, movers_after};
use super::{move_target, absorbed, absorb, absorb_all, absorbed_prefix, lemma_absorb_all_concat, DrainState, QueueDrain, MovingEntity,
    drain_state, delete_all, spawn_all, start_drain, next_job, movers, finish_drain};
use super::mining::dug_tiles;
use crate::playgame::GameStateResource;
use super::job_designations::{drops, ClaimedTool};
use super::mining::dug_dirty;
use crate::playgame::messaging::{dirty_block};

verus! {

/// The position of the entity with id `id`, if there is one.
fn find(world: &Vec<EntityRecord>, id: usize) -> (r: Option<usize>)
    requires
        ids_unique(world@),
    ensures
        r is None <==> !has_record(world@, id),
        r matches Some(i) ==> i < world@.len() && world@[i as int].id == id && index_of(world@, id) == i,
{
    let mut i: usize = 0;
    while i < world.len()
        invariant
            i <= world@.len(),
            ids_unique(world@),
            forall|j: int| 0 <= j < i ==> (#[trigger] world@[j]).id != id,
        decreases world@.len() - i,
    {
        if world[i].id == id {
            proof {
                let k = index_of(world@, id);
                assert(has_record(world@, id));
                assert(0 <= k < world@.len() && world@[k].id == id);
                if k != i {
                    assert(world@[k].id != world@[i as int].id);
                }
            }
            return Some(i);
        }
        i = i + 1;
    }
    None
}

/// Whether the path of `job`'s current step, if that step is a walk, is
/// not empty.
fn walk_not_empty(job: &JobType) -> (ok: bool)
    ensures
        ok == match job_path(*job) { Some(p) => p.len() > 0, None => true },
{
    match job {
        JobType::CollectTool { step: CollectToolSteps::TravelToTool { path }, .. } => path.len() > 0,
        JobType::ConstructBuilding { step: BuildingSteps::TravelToBuilding { path }, .. } => path.len() > 0,
        JobType::Haul { step: HaulSteps::TravelToItem { path }, .. } => path.len() > 0,
        JobType::Haul { step: HaulSteps::TravelToDestination { path }, .. } => path.len() > 0,
        _ => true,
    }
}

/// Whether the redraw block around `pos` lies within the index range.
fn block_fits(pos: usize) -> (ok: bool)
    ensures
        ok == dirty_block_fits(pos as int),
{
    let (x, y, z) = idxmap(pos);
    if x < 1 || y < 1 || z < 1 || z >= 0x7fff_ffff {
        return false;
    }
    let top: u128 = (z as u128 + 1) * 65536 + (y as u128 + 1) * 256 + (x as u128 + 1);
    assert(top == spec_mapidx(x + 1, y + 1, z + 1));
    top <= usize::MAX as u128
}

/// The mining designations of the world, in order.
fn collect_designations(world: &Vec<EntityRecord>) -> (des: Vec<(usize, MiningMode)>)
    ensures
        des@ == designations(world@),
{
    let ghost w = world@;
    let mut des: Vec<(usize, MiningMode)> = Vec::new();
    let mut k: usize = 0;
    while k < world.len()
        invariant
            world@ == w,
            k <= w.len(),
            des@ == designations(w.take(k as int)),
        decreases w.len() - k,
    {
        proof {
            assert(w.take(k + 1).drop_last() =~= w.take(k as int));
            assert(w.take(k + 1).last() == w[k as int]);
        }
        match world[k].designation {
            Some(m) => {
                des.push((world[k].tile, m));
            },
            None => {},
        }
        k = k + 1;
        proof {
            assert(des@ =~= designations(w.take(k as int)));
        }
    }
    proof {
        assert(w.take(w.len() as int) =~= w);
    }
    des
}

/// The tiles of the trees marked for cutting, and their positions.
fn collect_marked(world: &Vec<EntityRecord>) -> (r: (Vec<usize>, Vec<usize>))
    ensures
        r.0@ == marked_tiles(world@),
        r.1@.len() == r.0@.len(),
        forall|j: int| 0 <= j < r.1@.len() ==> #[trigger] r.1@[j] as int == marked_trees(world@)[j],
{
    let ghost w = world@;
    let mut tiles: Vec<usize> = Vec::new();
    let mut idx: Vec<usize> = Vec::new();
    let mut k: usize = 0;
    while k < world.len()
        invariant
            world@ == w,
            k <= w.len(),
            idx@.len() == tiles@.len(),
            idx@.len() == marked_trees(w.take(k as int)).len(),
            forall|j: int| 0 <= j < idx@.len() ==> #[trigger] idx@[j] as int == marked_trees(w.take(k as int))[j],
            forall|j: int| 0 <= j < idx@.len() ==> #[trigger] idx@[j] < k,
            forall|j: int| 0 <= j < idx@.len() ==> #[trigger] tiles@[j] == w[idx@[j] as int].tile,
        decreases w.len() - k,
    {
        proof {
            assert(w.take(k + 1).drop_last() =~= w.take(k as int));
            assert(w.take(k + 1).last() == w[k as int]);
        }
        let marked = match world[k].tree {
            Some((c, _)) => c,
            None => false,
        };
        if marked {
            tiles.push(world[k].tile);
            idx.push(k);
        }
        k = k + 1;
    }
    proof {
        assert(w.take(w.len() as int) =~= w);
        assert(tiles@ =~= marked_tiles(w));
    }
    (tiles, idx)
}

/// Whether `step` can be applied to the world: the lookups that applying it
/// makes succeed, and the numbers it computes stay in range (see
/// `can_apply` and `can_dig`).
#[verifier::loop_isolation(false)]
pub fn step_applicable(
    world: &Vec<EntityRecord>,
    region: &Region,
    step: &JobStep,
    fresh_id: usize,
    roll: i32,
    mined_products: &Vec<Vec<String>>,
) -> (ok: bool)
    requires
        ids_unique(world@),
    ensures
        ok == (can_apply(world@, *step, fresh_id, roll)
            && (*step matches JobStep::DigAt { pos, .. } ==> can_dig(world@, *region, mined_products@, pos, roll))),
{
    let ghost w = world@;
    match step {
        JobStep::FollowJobPath { id } => {
            match find(world, *id) {
                None => true,
                Some(i) => match &world[i].job {
                    None => true,
                    Some(j) => walk_not_empty(j),
                },
            }
        },
        JobStep::CreateReactionJob { workshop_id, .. } => {
            find(world, *workshop_id).is_some() && find(world, fresh_id).is_none()
        },
        JobStep::PerformReaction { reaction_id } => {
            match find(world, *reaction_id) {
                None => false,
                Some(i) => world[i].reaction.is_some() && world[i].blueprint.is_some(),
            }
        },
        JobStep::UpdateBlueprint { item_id } => {
            let ii = match find(world, *item_id) {
                None => { return true; },
                Some(ii) => ii,
            };
            let b = match world[ii].claimed_by {
                None => { return true; },
                Some(b) => b,
            };
            let bi = match find(world, b) {
                None => { return true; },
                Some(bi) => bi,
            };
            match &world[bi].blueprint {
                None => true,
                Some(bp) => {
                    if world[bi].tile >= REGION_TILES_COUNT {
                        return false;
                    }
                    let items = &bp.1;
                    proof {
                        assert(record_of(w, *item_id) == w[ii as int]);
                        assert(record_of(w, b) == w[bi as int]);
                        assert((record_of(w, b).blueprint->0).1@ == items@);
                    }
                    let mut k: usize = 0;
                    while k < items.len()
                        invariant
                            world@ == w,
                            ids_unique(w),
                            k <= items@.len(),
                            forall|q: int| 0 <= q < k ==> has_record(w, #[trigger] items@[q])
                                && record_of(w, items@[q]).tile < REGION_TILES_COUNT,
                        decreases items@.len() - k,
                    {
                        match find(world, items[k]) {
                            None => {
                                assert(!has_record(w, items@[k as int]));
                                return false;
                            },
                            Some(ci) => {
                                if world[ci].tile >= REGION_TILES_COUNT {
                                    assert(record_of(w, items@[k as int]) == w[ci as int]);
                                    return false;
                                }
                            },
                        }
                        k = k + 1;
                    }
                    true
                },
            }
        },
        JobStep::TreeChop { tree_pos, .. } => {
            if *tree_pos >= REGION_TILES_COUNT {
                return false;
            }
            let mut k: usize = 0;
            while k < world.len()
                invariant
                    k <= world@.len(),
                    forall|q: int| 0 <= q < k && marked_tree(#[trigger] world@[q]) ==> world@[q].tile < REGION_TILES_COUNT,
                decreases world@.len() - k,
            {
                let marked = match world[k].tree {
                    Some((c, _)) => c,
                    None => false,
                };
                if marked && world[k].tile >= REGION_TILES_COUNT {
                    assert(marked_tree(world@[k as int]));
                    return false;
                }
                k = k + 1;
            }
            if roll <= 0 {
                return true;
            }
            let (tiles, idx) = collect_marked(world);
            proof {
                super::world::lemma_marked_trees(w);
                assert forall|j: int| 0 <= j < tiles@.len() implies #[trigger] tiles@[j] < REGION_TILES_COUNT by {
                    assert(marked_tree(w[marked_trees(w)[j]]));
                }
            }
            match locate_target(*tree_pos, &tiles) {
                None => true,
                Some(n) => {
                    let t = idx[n];
                    assert(chop_target(w, *tree_pos) == Some(t as int));
                    let h: i32 = match world[t].tree {
                        Some((_, h)) => h,
                        None => 0,
                    };
                    (h as i64) - (roll as i64) >= -0x8000_0000i64
                },
            }
        },
        JobStep::BecomeMiner { id } | JobStep::BecomeLumberjack { id } => {
            let miner = match step {
                JobStep::BecomeMiner { .. } => true,
                _ => false,
            };
            let usage = if miner { ToolType::Digging } else { ToolType::Chopping };
            let si = match find(world, *id) {
                None => { return true; },
                Some(si) => si,
            };
            if world[si].settler.is_none() {
                return true;
            }
            if world[si].tile >= REGION_TILES_COUNT {
                return false;
            }
            let mut k: usize = 0;
            while k < world.len()
                invariant
                    k <= world@.len(),
                    usage == trade_tool(miner),
                    forall|q: int| 0 <= q < k && free_tool(#[trigger] world@[q], trade_tool(miner)) ==> world@[q].tile < REGION_TILES_COUNT,
                decreases world@.len() - k,
            {
                let free = match world[k].tool {
                    Some(u) => u == usage && world[k].claimed_by.is_none(),
                    None => false,
                };
                if free && world[k].tile >= REGION_TILES_COUNT {
                    assert(free_tool(world@[k as int], trade_tool(miner)));
                    return false;
                }
                k = k + 1;
            }
            true
        },
        JobStep::DigAt { pos, .. } => {
            let n = region.tile_types.len();
            if region.revealed.len() != n || region.water_level.len() != n || region.material_idx.len() != n
                || region.constructed.len() != n || *pos >= REGION_TILES_COUNT {
                return false;
            }
            let des = collect_designations(world);
            let mut k: usize = 0;
            while k < des.len()
                invariant
                    des@ == designations(world@),
                    k <= des@.len(),
                    forall|q: int| 0 <= q < k ==> (#[trigger] des@[q]).0 < REGION_TILES_COUNT,
                decreases des@.len() - k,
            {
                if des[k].0 >= REGION_TILES_COUNT {
                    assert(des@[k as int] == designations(world@)[k as int]);
                    return false;
                }
                k = k + 1;
            }
            if roll <= 0 {
                return true;
            }
            match pick_dig_target(&des, *pos) {
                None => true,
                Some((m, mode)) => {
                    if mode != MiningMode::Ramp && !(m < n && block_fits(m)) {
                        return false;
                    }
                    if mode == MiningMode::Channel && !(m >= 65536 && block_fits(m - 65536)) {
                        return false;
                    }
                    if mode == MiningMode::Dig && region.material_idx[m] >= mined_products.len() {
                        return false;
                    }
                    true
                },
            }
        },
        _ => true,
    }
}

/// How deep the chain of messages that applying `s` can post goes: steps
/// that post steps that post go first, those that post only notifications
/// next, and those that post nothing last.
pub open spec fn level(s: JobStep) -> int {
    match s {
        JobStep::FinishBuilding { .. } => 2,
        JobStep::PerformReaction { .. } => 2,
        JobStep::FireMiner { .. } => 2,
        JobStep::FireLumberjack { .. } => 2,
        JobStep::JobConcluded { .. } => 1,
        JobStep::DropItem { .. } => 1,
        JobStep::GetItem { .. } => 1,
        JobStep::EquipItem { .. } => 1,
        JobStep::DeleteItem { .. } => 1,
        JobStep::DeleteBuilding { .. } => 1,
        JobStep::TreeChop { .. } => 1,
        JobStep::DigAt { .. } => 1,
        _ => 0,
    }
}

/// How many of `q` are at level `l`.
pub open spec fn count_level(q: Seq<JobStep>, l: int) -> nat
    decreases q.len(),
{
    if q.len() == 0 {
        0
    } else {
        count_level(q.drop_last(), l) + if level(q.last()) == l { 1nat } else { 0nat }
    }
}

proof fn lemma_count_concat(a: Seq<JobStep>, b: Seq<JobStep>, l: int)
    ensures
        count_level(a + b, l) == count_level(a, l) + count_level(b, l),
    decreases b.len(),
{
    if b.len() == 0 {
        assert(a + b =~= a);
    } else {
        lemma_count_concat(a, b.drop_last(), l);
        assert((a + b).drop_last() =~= a + b.drop_last());
        assert((a + b).last() == b.last());
    }
}

proof fn lemma_count_below(q: Seq<JobStep>, l: int)
    requires
        forall|i: int| 0 <= i < q.len() ==> level(#[trigger] q[i]) < l,
    ensures
        count_level(q, l) == 0,
        l <= 2 ==> count_level(q, 2) == 0,
        l <= 1 ==> count_level(q, 1) == 0,
        l <= 0 ==> count_level(q, 0) == 0,
    decreases q.len(),
{
    if q.len() > 0 {
        let d = q.drop_last();
        assert forall|i: int| 0 <= i < d.len() implies level(#[trigger] d[i]) < l by {
            assert(d[i] == q[i]);
        }
        lemma_count_below(d, l);
        assert(level(q.last()) < l) by {
            assert(q.last() == q[q.len() - 1]);
        }
    }
}

proof fn lemma_drops_are_drops(tools: Seq<ClaimedTool>, usage: ToolType, id: usize)
    ensures
        forall|i: int| 0 <= i < drops(tools, usage, id).len() ==> #[trigger] drops(tools, usage, id)[i] is DropItem,
    decreases tools.len(),
{
    if tools.len() > 0 {
        lemma_drops_are_drops(tools.drop_last(), usage, id);
        let d = drops(tools, usage, id);
        let d0 = drops(tools.drop_last(), usage, id);
        assert forall|i: int| 0 <= i < d.len() implies #[trigger] d[i] is DropItem by {
            if i < d0.len() {
                assert(d[i] == d0[i]);
            }
        }
    }
}

/// Every message that applying `x` posts is at a lower level than `x`.
proof fn lemma_posts_lower(w: Seq<EntityRecord>, x: JobStep, outputs: Option<Seq<(String, i32)>>, roll: i32)
    ensures
        forall|i: int| 0 <= i < posts(w, x, outputs, roll).len() ==> level(#[trigger] posts(w, x, outputs, roll)[i]) < level(x),
{
    let p = posts(w, x, outputs, roll);
    match x {
        JobStep::FinishBuilding { building_id } => {
            assert forall|i: int| 0 <= i < p.len() implies level(#[trigger] p[i]) < level(x) by {
                if has_record(w, building_id) && record_of(w, building_id).building is Some {
                    let r = record_of(w, building_id);
                    let a: Seq<JobStep> = if r.light is Some { seq![JobStep::LightsChanged] } else { Seq::empty() };
                    let b: Seq<JobStep> = match r.blueprint { Some(bp) => delete_all(bp.1@), None => Seq::empty() };
                    assert(p == a + b);
                    if i >= a.len() {
                        assert(p[i] == b[i - a.len()]);
                    }
                }
            }
        },
        JobStep::PerformReaction { reaction_id } => {
            let r = record_of(w, reaction_id);
            let items = (r.blueprint->0).1@;
            let a = delete_all(items);
            let b: Seq<JobStep> = match outputs { Some(o) => spawn_all(o, r.tile, super::world::product_material(w, items)), None => Seq::empty() };
            let c = seq![JobStep::VoxMoved];
            assert(p == a + b + c);
            assert forall|i: int| 0 <= i < p.len() implies level(#[trigger] p[i]) < level(x) by {
                if i < a.len() {
                    assert(p[i] == a[i]);
                } else if i < a.len() + b.len() {
                    assert(p[i] == b[i - a.len()]);
                } else {
                    assert(p[i] == c[i - a.len() - b.len()]);
                }
            }
        },
        JobStep::FireMiner { id } => {
            lemma_drops_are_drops(claimed_tools(w, w), ToolType::Digging, id);
        },
        JobStep::FireLumberjack { id } => {
            lemma_drops_are_drops(claimed_tools(w, w), ToolType::Chopping, id);
        },
        JobStep::DigAt { .. } => {
            match dig_done(w, x, roll) {
                Some((m, mode)) => {
                    assert forall|i: int| 0 <= i < p.len() implies level(#[trigger] p[i]) < level(x) by {
                        let a = dirty_block(m as int);
                        let b = dirty_block(m - 65536);
                        if mode == MiningMode::Channel {
                            assert(p == a + b);
                            if i < a.len() {
                                assert(p[i] == a[i]);
                            } else {
                                assert(p[i] == b[i - a.len()]);
                            }
                        }
                    }
                },
                None => {},
            }
        },
        _ => {},
    }
}

/// What applying one message takes from outside the world: the id for an
/// entity it creates, the worker's skill roll, and the products of the
/// reaction it performs (when that reaction is known).
pub struct StepInput {
    pub fresh_id: usize,
    pub skill_roll: i32,
    pub reaction_outputs: Option<Vec<(String, i32)>>,
}

/// The reaction products of `i` in mathematical form.
pub open spec fn outputs_view(i: StepInput) -> Option<Seq<(String, i32)>> {
    match i.reaction_outputs { Some(o) => Some(o@), None => None }
}

/// The messages of `runs`, one run after another.
pub open spec fn flatten(runs: Seq<Seq<JobStep>>) -> Seq<JobStep>
    decreases runs.len(),
{
    if runs.len() == 0 { Seq::empty() } else { flatten(runs.drop_last()) + runs.last() }
}

/// The spawn requests of `runs`, one run after another.
pub open spec fn flatten_spawns(runs: Seq<Seq<(usize, Seq<char>, usize)>>) -> Seq<(usize, Seq<char>, usize)>
    decreases runs.len(),
{
    if runs.len() == 0 { Seq::empty() } else { flatten_spawns(runs.drop_last()) + runs.last() }
}

/// The messages of `s` that a drain hands out to be applied, in order.
pub open spec fn handed_out(s: Seq<JobStep>) -> Seq<JobStep>
    decreases s.len(),
{
    if s.len() == 0 {
        Seq::empty()
    } else {
        handed_out(s.drop_last()) + if absorbed(s.last()) { Seq::empty() } else { seq![s.last()] }
    }
}

/// The notifications and dirty tiles of a drain state.
pub open spec fn flags(s: DrainState) -> (bool, bool, bool, Seq<usize>) {
    (s.0, s.1, s.2, s.3)
}

/// The state of a drain that has taken nothing in.
pub open spec fn no_drain() -> DrainState {
    (false, false, false, Seq::empty(), Map::empty())
}

/// Applying `x` with input `inp` took world `w0` and region `r0` to `w1`
/// and `r1`, posted `run`, and asked for `spawned`.
pub open spec fn step_effect(w0: Seq<EntityRecord>, w1: Seq<EntityRecord>, r0: Region, r1: Region, x: JobStep,
    inp: StepInput, run: Seq<JobStep>, spawned: Seq<(usize, Seq<char>, usize)>, wood: usize, mined: Seq<Vec<String>>) -> bool {
    &&& ids_unique(w1)
    &&& world_after(w0, w1, x, inp.fresh_id, inp.skill_roll)
    &&& run == posts(w0, x, outputs_view(inp), inp.skill_roll)
    &&& r1.tile_types@ == match dig_done(w0, x, inp.skill_roll) {
        Some((m, mode)) => dug_tiles(r0.tile_types@, m as int, mode),
        None => r0.tile_types@,
    }
    &&& r1.revealed@ == r0.revealed@
    &&& r1.water_level@ == r0.water_level@
    &&& r1.material_idx@ == r0.material_idx@
    &&& r1.constructed@ == r0.constructed@
    &&& spawned == spawn_requests(w0, x, inp.skill_roll, wood, r0.material_idx@, mined)
}

/// A drain of the queue `q0` over world `w0` and region `r0` has taken out
/// the messages `popped`, in order, and `rest` are left in the queue: the
/// two together are `q0` followed by every run of messages that applying
/// posted. The messages handed out, `xs`, were applied in turn with the
/// inputs `ins`, through the worlds `ws` and regions `rs`, posting `runs`
/// and asking for the spawns `sps`.
pub open spec fn drained(q0: Seq<JobStep>, w0: Seq<EntityRecord>, r0: Region, popped: Seq<JobStep>, rest: Seq<JobStep>,
    xs: Seq<JobStep>, ins: Seq<StepInput>, ws: Seq<Seq<EntityRecord>>, rs: Seq<Region>,
    runs: Seq<Seq<JobStep>>, sps: Seq<Seq<(usize, Seq<char>, usize)>>, wood: usize, mined: Seq<Vec<String>>) -> bool {
    &&& popped + rest == q0 + flatten(runs)
    &&& xs == handed_out(popped)
    &&& ins.len() == xs.len()
    &&& runs.len() == xs.len()
    &&& sps.len() == xs.len()
    &&& ws.len() == xs.len() + 1
    &&& rs.len() == xs.len() + 1
    &&& ws[0] == w0
    &&& rs[0] == r0
    &&& forall|i: int| 0 <= i < xs.len() ==> #[trigger] step_effect(ws[i], ws[i + 1], rs[i], rs[i + 1], xs[i], ins[i],
        runs[i], sps[i], wood, mined)
}

proof fn lemma_handed_concat(a: Seq<JobStep>, b: Seq<JobStep>)
    ensures
        handed_out(a + b) == handed_out(a) + handed_out(b),
    decreases b.len(),
{
    if b.len() == 0 {
        assert(a + b =~= a);
        assert(handed_out(a) + handed_out(b) =~= handed_out(a));
    } else {
        lemma_handed_concat(a, b.drop_last());
        assert((a + b).drop_last() =~= a + b.drop_last());
        assert((a + b).last() == b.last());
        assert(handed_out(a) + handed_out(b) =~= handed_out(a) + handed_out(b.drop_last())
            + (if absorbed(b.last()) { Seq::<JobStep>::empty() } else { seq![b.last()] }));
    }
}

proof fn lemma_handed_absorbed(q: Seq<JobStep>)
    requires
        forall|i: int| 0 <= i < q.len() ==> absorbed(#[trigger] q[i]),
    ensures
        handed_out(q) == Seq::<JobStep>::empty(),
    decreases q.len(),
{
    if q.len() > 0 {
        let d = q.drop_last();
        assert forall|i: int| 0 <= i < d.len() implies absorbed(#[trigger] d[i]) by {
            assert(d[i] == q[i]);
        }
        lemma_handed_absorbed(d);
        assert(absorbed(q[q.len() - 1]));
    }
}

proof fn lemma_flags_absorb(s: DrainState, t: DrainState, q: Seq<JobStep>)
    requires
        flags(s) == flags(t),
    ensures
        flags(absorb_all(s, q)) == flags(absorb_all(t, q)),
    decreases q.len(),
{
    if q.len() > 0 {
        lemma_flags_absorb(s, t, q.drop_last());
    }
}

proof fn lemma_flatten_push(runs: Seq<Seq<JobStep>>, r: Seq<JobStep>)
    ensures
        flatten(runs.push(r)) == flatten(runs) + r,
{
    assert(runs.push(r).drop_last() =~= runs);
}

proof fn lemma_flatten_spawns_push(runs: Seq<Seq<(usize, Seq<char>, usize)>>, r: Seq<(usize, Seq<char>, usize)>)
    ensures
        flatten_spawns(runs.push(r)) == flatten_spawns(runs) + r,
{
    assert(runs.push(r).drop_last() =~= runs);
}

proof fn lemma_measure(q: Seq<JobStep>, n: int, x: JobStep, qb: Seq<JobStep>, run: Seq<JobStep>)
    requires
        0 <= n,
        q == q.take(n) + (seq![x] + qb),
        forall|i: int| 0 <= i < n ==> absorbed(#[trigger] q[i]),
        forall|i: int| 0 <= i < run.len() ==> level(#[trigger] run[i]) < level(x),
    ensures
        ({
            let a = qb + run;
            count_level(a, 2) < count_level(q, 2)
            || (count_level(a, 2) == count_level(q, 2) && (count_level(a, 1) < count_level(q, 1)
                || (count_level(a, 1) == count_level(q, 1) && count_level(a, 0) < count_level(q, 0))))
        }),
{
    let p = q.take(n);
    lemma_count_concat(p, seq![x] + qb, 2);
    lemma_count_concat(p, seq![x] + qb, 1);
    lemma_count_concat(p, seq![x] + qb, 0);
    lemma_count_concat(seq![x], qb, 2);
    lemma_count_concat(seq![x], qb, 1);
    lemma_count_concat(seq![x], qb, 0);
    lemma_count_concat(qb, run, 2);
    lemma_count_concat(qb, run, 1);
    lemma_count_concat(qb, run, 0);
    assert forall|i: int| 0 <= i < p.len() implies level(#[trigger] p[i]) < 1 by {
        assert(p[i] == q[i]);
        assert(absorbed(q[i]));
    }
    lemma_count_below(p, 1);
    lemma_count_below(run, level(x));
    assert(seq![x].drop_last() =~= Seq::<JobStep>::empty());
}

proof fn lemma_extend(q0: Seq<JobStep>, w0: Seq<EntityRecord>, r0: Region, popped: Seq<JobStep>, q: Seq<JobStep>,
    n: int, x: JobStep, qb: Seq<JobStep>, xs: Seq<JobStep>, ins: Seq<StepInput>, ws: Seq<Seq<EntityRecord>>,
    rs: Seq<Region>, runs: Seq<Seq<JobStep>>, sps: Seq<Seq<(usize, Seq<char>, usize)>>, wood: usize,
    mined: Seq<Vec<String>>, inp: StepInput, w1: Seq<EntityRecord>, r1: Region, run: Seq<JobStep>,
    spv: Seq<(usize, Seq<char>, usize)>)
    requires
        drained(q0, w0, r0, popped, q, xs, ins, ws, rs, runs, sps, wood, mined),
        0 <= n,
        q == q.take(n) + (seq![x] + qb),
        forall|i: int| 0 <= i < n ==> absorbed(#[trigger] q[i]),
        !absorbed(x),
        step_effect(ws.last(), w1, rs.last(), r1, x, inp, run, spv, wood, mined),
    ensures
        drained(q0, w0, r0, popped + (q.take(n) + seq![x]), qb + run, xs.push(x), ins.push(inp), ws.push(w1),
            rs.push(r1), runs.push(run), sps.push(spv), wood, mined),
{
    let p = q.take(n);
    assert forall|i: int| 0 <= i < p.len() implies absorbed(#[trigger] p[i]) by {
        assert(p[i] == q[i]);
    }
    lemma_handed_absorbed(p);
    lemma_handed_concat(p, seq![x]);
    assert(seq![x].drop_last() =~= Seq::<JobStep>::empty());
    assert(seq![x].last() == x);
    assert(handed_out(Seq::<JobStep>::empty()) == Seq::<JobStep>::empty());
    assert(handed_out(seq![x]) =~= seq![x]);
    lemma_handed_concat(popped, p + seq![x]);
    assert(handed_out(p + seq![x]) =~= seq![x]);
    lemma_flatten_push(runs, run);
    assert(popped + (p + seq![x]) + (qb + run) =~= (popped + q) + run);
    assert(q0 + flatten(runs.push(run)) =~= (q0 + flatten(runs)) + run);
    assert(handed_out(p + seq![x]) =~= seq![x]);
    assert(handed_out(popped + (p + seq![x])) =~= xs.push(x));
    assert(ws.push(w1)[0] == ws[0]);
    assert(rs.push(r1)[0] == rs[0]);
    let xs1 = xs.push(x);
    let ins1 = ins.push(inp);
    let ws1 = ws.push(w1);
    let rs1 = rs.push(r1);
    let runs1 = runs.push(run);
    let sps1 = sps.push(spv);
    assert forall|i: int| 0 <= i < xs1.len() implies #[trigger] step_effect(ws1[i], ws1[i + 1], rs1[i], rs1[i + 1],
        xs1[i], ins1[i], runs1[i], sps1[i], wood, mined) by {
        if i < xs.len() {
            assert(ws1[i] == ws[i] && ws1[i + 1] == ws[i + 1] && rs1[i] == rs[i] && rs1[i + 1] == rs[i + 1]);
            assert(xs1[i] == xs[i] && ins1[i] == ins[i] && runs1[i] == runs[i] && sps1[i] == sps[i]);
        } else {
            assert(ws1[i] == ws.last() && rs1[i] == rs.last());
        }
    }
}

proof fn lemma_flags_step(popped: Seq<JobStep>, p: Seq<JobStep>, x: JobStep, d0: DrainState, d1: DrainState)
    requires
        flags(d0) == flags(absorb_all(no_drain(), popped)),
        flags(d1) == flags(absorb_all(d0, p)),
        !absorbed(x),
    ensures
        flags(d1) == flags(absorb_all(no_drain(), popped + (p + seq![x]))),
        flags(d1) == flags(absorb_all(no_drain(), popped + p)),
{
    lemma_flags_absorb(d0, absorb_all(no_drain(), popped), p);
    lemma_absorb_all_concat(no_drain(), popped, p);
    lemma_absorb_all_concat(no_drain(), popped + p, seq![x]);
    assert(popped + (p + seq![x]) =~= (popped + p) + seq![x]);
    assert(seq![x].drop_last() =~= Seq::<JobStep>::empty());
    assert(seq![x].last() == x);
    let b = absorb_all(no_drain(), popped + p);
    assert(absorb_all(b, seq![x]) == absorb(absorb_all(b, Seq::<JobStep>::empty()), x));
    assert(absorb(b, x) == b);
}

/// Where the entities moved by the messages `popped` end up, the messages
/// taken in order: a move records its target, and a message handed out
/// records what applying it to the world it met in `ws` records (a step
/// along a path); a later record for the same entity replaces an earlier
/// one.
pub open spec fn moves_of(popped: Seq<JobStep>, ws: Seq<Seq<EntityRecord>>) -> Map<usize, (usize, usize, usize)>
    decreases popped.len(),
{
    if popped.len() == 0 {
        Map::empty()
    } else {
        let m = moves_of(popped.drop_last(), ws);
        let s = popped.last();
        if absorbed(s) {
            match s {
                JobStep::EntityMoved { id, end } => m.insert(id, move_target(end)),
                _ => m,
            }
        } else {
            movers_after(ws[handed_out(popped.drop_last()).len() as int], m, s)
        }
    }
}

proof fn lemma_handed_len(p: Seq<JobStep>)
    ensures
        p.len() > 0 ==> handed_out(p.drop_last()).len() <= handed_out(p).len(),
        p.len() > 0 && !absorbed(p.last()) ==> handed_out(p.drop_last()).len() + 1 == handed_out(p).len(),
{
    if p.len() > 0 {
        assert(handed_out(p) == handed_out(p.drop_last()) + if absorbed(p.last()) { Seq::<JobStep>::empty() } else { seq![p.last()] });
    }
}

proof fn lemma_moves_extend_ws(p: Seq<JobStep>, ws: Seq<Seq<EntityRecord>>, w: Seq<EntityRecord>)
    requires
        handed_out(p).len() < ws.len(),
    ensures
        moves_of(p, ws) == moves_of(p, ws.push(w)),
    decreases p.len(),
{
    if p.len() > 0 {
        lemma_handed_len(p);
        lemma_moves_extend_ws(p.drop_last(), ws, w);
        if !absorbed(p.last()) {
            assert(ws.push(w)[handed_out(p.drop_last()).len() as int] == ws[handed_out(p.drop_last()).len() as int]);
        }
    }
}

proof fn lemma_moves_absorbed(popped: Seq<JobStep>, p: Seq<JobStep>, ws: Seq<Seq<EntityRecord>>, s: DrainState)
    requires
        s.4 == moves_of(popped, ws),
        forall|i: int| 0 <= i < p.len() ==> absorbed(#[trigger] p[i]),
    ensures
        absorb_all(s, p).4 == moves_of(popped + p, ws),
    decreases p.len(),
{
    if p.len() == 0 {
        assert(popped + p =~= popped);
    } else {
        let d = p.drop_last();
        assert forall|i: int| 0 <= i < d.len() implies absorbed(#[trigger] d[i]) by {
            assert(d[i] == p[i]);
        }
        lemma_moves_absorbed(popped, d, ws, s);
        assert((popped + p).drop_last() =~= popped + d);
        assert((popped + p).last() == p.last());
        assert(absorbed(p[p.len() - 1]));
    }
}

/// The drain stopped at `s`, the message handed out after the messages
/// `popped`, with `rest` still queued: applying `s` to the world reached,
/// with the input `inp` that `inputs` gave for it, is not defined.
pub open spec fn stopped_at<F: Fn(&JobStep, &Vec<EntityRecord>) -> StepInput>(inputs: F, q0: Seq<JobStep>, w0: Seq<EntityRecord>, r0: Region,
    s: JobStep, rest: Seq<JobStep>, fw: Seq<EntityRecord>, fr: Region, wood: usize, mined: Seq<Vec<String>>,
    popped: Seq<JobStep>, xs: Seq<JobStep>, ins: Seq<StepInput>, ws: Seq<Seq<EntityRecord>>, rs: Seq<Region>,
    runs: Seq<Seq<JobStep>>, sps: Seq<Seq<(usize, Seq<char>, usize)>>, inp: StepInput, fv: Vec<EntityRecord>) -> bool {
    &&& drained(q0, w0, r0, popped, seq![s] + rest, xs, ins, ws, rs, runs, sps, wood, mined)
    &&& !absorbed(s)
    &&& fw == ws.last()
    &&& fv@ == fw
    &&& fr == rs.last()
    &&& call_ensures(inputs, (&s, &fv), inp)
    &&& !(can_apply(ws.last(), s, inp.fresh_id, inp.skill_roll)
        && (s matches JobStep::DigAt { pos, .. } ==> can_dig(ws.last(), rs.last(), mined, pos, inp.skill_roll)))
}

/// Drains the whole jobs queue, as the end of a tick does: moves recorded
/// before are forgotten; each message is absorbed (notifications, dirty
/// tiles, moves) or applied to the world with the inputs that `inputs`
/// gives for it, and the messages that applying posts are drained in turn,
/// until the queue is empty; then the moved entities among `entities` are
/// moved and the notifications and dirty tiles gathered are raised on
/// `gs`. The inputs for a message are what `inputs` gives for it and the
/// world it is applied to. Returns the items to spawn, in order. When a message handed out
/// cannot be applied (one of the lookups that applying it makes fails),
/// the drain stops there and returns that message.
pub fn drain_queues<F: Fn(&JobStep, &Vec<EntityRecord>) -> StepInput>(
    world: &mut Vec<EntityRecord>,
    region: &mut Region,
    queues: &mut MessageQueues,
    entities: &mut Vec<MovingEntity>,
    gs: &mut GameStateResource,
    inputs: F,
    wood_material: usize,
    mined_products: &Vec<Vec<String>>,
) -> (r: Result<Vec<(usize, String, usize)>, JobStep>)
    requires
        ids_unique(old(world)@),
        forall|s: &JobStep, w: &Vec<EntityRecord>| call_requires(inputs, (s, w)),
    ensures
        ids_unique(final(world)@),
        r matches Ok(spawns) ==> exists|popped: Seq<JobStep>, xs: Seq<JobStep>, ins: Seq<StepInput>, ws: Seq<Seq<EntityRecord>>,
            rs: Seq<Region>, runs: Seq<Seq<JobStep>>, sps: Seq<Seq<(usize, Seq<char>, usize)>>, wvs: Seq<Vec<EntityRecord>>| {
            &&& drained(old(queues).jobs@, old(world)@, *old(region), popped, Seq::empty(), xs, ins, ws, rs, runs, sps,
                wood_material, mined_products@)
            &&& wvs.len() == xs.len()
            &&& forall|i: int| 0 <= i < xs.len() ==> (#[trigger] wvs[i])@ == ws[i]
                && call_ensures(inputs, (&xs[i], &wvs[i]), ins[i])
            &&& final(world)@ == ws.last()
            &&& *final(region) == rs.last()
            &&& spawn_view(spawns@) == flatten_spawns(sps)
            &&& final(queues).jobs@ == Seq::<JobStep>::empty()
            &&& final(queues).movers@ == moves_of(popped, ws)
            &&& final(gs).vox_moved == (old(gs).vox_moved || absorb_all(no_drain(), popped).0
                || !final(queues).movers@.is_empty())
            &&& final(gs).models_moved == (old(gs).models_moved || absorb_all(no_drain(), popped).1)
            &&& final(gs).lights_changed == (old(gs).lights_changed || absorb_all(no_drain(), popped).2)
            &&& final(gs).dirty_tiles@ == if absorb_all(no_drain(), popped).0 || absorb_all(no_drain(), popped).1
                    || absorb_all(no_drain(), popped).2 {
                old(gs).dirty_tiles@ + absorb_all(no_drain(), popped).3
            } else {
                old(gs).dirty_tiles@
            }
            &&& final(gs).camera_changed == old(gs).camera_changed
            &&& final(gs).keycode == old(gs).keycode
        },
        r is Ok ==> final(entities)@.len() == old(entities)@.len(),
        r is Ok ==> forall|i: int| 0 <= i < old(entities)@.len() ==> #[trigger] final(entities)@[i] ==
            if final(queues).movers@.contains_key(old(entities)@[i].id) {
                MovingEntity { id: old(entities)@[i].id, tile: final(queues).movers@[old(entities)@[i].id], fov_dirty: true }
            } else {
                old(entities)@[i]
            },
        r matches Err(s) ==> exists|popped: Seq<JobStep>, xs: Seq<JobStep>, ins: Seq<StepInput>, ws: Seq<Seq<EntityRecord>>,
            rs: Seq<Region>, runs: Seq<Seq<JobStep>>, sps: Seq<Seq<(usize, Seq<char>, usize)>>, inp: StepInput|
            #[trigger] stopped_at(inputs, old(queues).jobs@, old(world)@, *old(region), s, final(queues).jobs@, final(world)@,
                *final(region), wood_material, mined_products@, popped, xs, ins, ws, rs, runs, sps, inp, *final(world)),
{
    let ghost q0 = queues.jobs@;
    let ghost w0 = world@;
    let ghost r0 = *region;
    let mut drain = start_drain(queues);
    let mut spawns: Vec<(usize, String, usize)> = Vec::new();
    let ghost mut popped: Seq<JobStep> = Seq::empty();
    let ghost mut xs: Seq<JobStep> = Seq::empty();
    let ghost mut ins: Seq<StepInput> = Seq::empty();
    let ghost mut ws: Seq<Seq<EntityRecord>> = seq![w0];
    let ghost mut rs: Seq<Region> = seq![r0];
    let ghost mut runs: Seq<Seq<JobStep>> = Seq::empty();
    let ghost mut sps: Seq<Seq<(usize, Seq<char>, usize)>> = Seq::empty();
    let ghost mut wvs: Seq<Vec<EntityRecord>> = Seq::empty();
    proof {
        assert(popped + queues.jobs@ =~= q0 + flatten(runs));
    }
    loop
        invariant
            ids_unique(world@),
            forall|s: &JobStep, w: &Vec<EntityRecord>| call_requires(inputs, (s, w)),
            drained(q0, w0, r0, popped, queues.jobs@, xs, ins, ws, rs, runs, sps, wood_material, mined_products@),
            wvs.len() == xs.len(),
            forall|i: int| 0 <= i < xs.len() ==> (#[trigger] wvs[i])@ == ws[i] && call_ensures(inputs, (&xs[i], &wvs[i]), ins[i]),
            world@ == ws.last(),
            *region == rs.last(),
            spawn_view(spawns@) == flatten_spawns(sps),
            flags(drain_state(drain, queues.movers@)) == flags(absorb_all(no_drain(), popped)),
            queues.movers@ == moves_of(popped, ws),
            *entities == *old(entities),
            q0 == old(queues).jobs@,
            w0 == old(world)@,
            r0 == *old(region),
            gs == old(gs),
        ensures
            queues.jobs@ == Seq::<JobStep>::empty(),
        decreases count_level(queues.jobs@, 2), count_level(queues.jobs@, 1), count_level(queues.jobs@, 0),
    {
        let ghost q = queues.jobs@;
        let ghost d0 = drain_state(drain, queues.movers@);
        let next = next_job(queues, &mut drain);
        let ghost n = absorbed_prefix(q);
        match next {
            None => {
                proof {
                    assert(q.take(n) =~= q);
                    lemma_flags_absorb(d0, absorb_all(no_drain(), popped), q);
                    lemma_absorb_all_concat(no_drain(), popped, q);
                    lemma_handed_absorbed(q);
                    lemma_handed_concat(popped, q);
                    assert(handed_out(popped) + Seq::<JobStep>::empty() =~= handed_out(popped));
                    assert(popped + q + queues.jobs@ =~= popped + q);
                    lemma_moves_absorbed(popped, q, ws, d0);
                    popped = popped + q;
                }
                break;
            },
            Some(x) => {
                let inp = inputs(&x, &*world);
                let ghost ins_x = inp;
                let ghost wv = *world;
                let ghost qb = queues.jobs@;
                proof {
                    assert(q =~= q.take(n) + (seq![x] + qb));
                    lemma_flags_step(popped, q.take(n), x, d0, drain_state(drain, queues.movers@));
                }
                if !step_applicable(world, region, &x, inp.fresh_id, inp.skill_roll, mined_products) {
                    proof {
                        let pe = popped + q.take(n);
                        assert(pe + (seq![x] + qb) =~= popped + q);
                        assert forall|i: int| 0 <= i < q.take(n).len() implies absorbed(#[trigger] q.take(n)[i]) by {
                            assert(q.take(n)[i] == q[i]);
                        }
                        lemma_handed_absorbed(q.take(n));
                        lemma_handed_concat(popped, q.take(n));
                        assert(handed_out(popped) + Seq::<JobStep>::empty() =~= handed_out(popped));
                        assert(stopped_at(inputs, q0, w0, r0, x, qb, world@, *region, wood_material, mined_products@,
                            pe, xs, ins, ws, rs, runs, sps, ins_x, *world));
                    }
                    return Err(x);
                }
                let ghost wb = world@;
                let ghost rb = *region;
                let ghost mb = queues.movers@;
                proof {
                    let p = q.take(n);
                    assert forall|i: int| 0 <= i < p.len() implies absorbed(#[trigger] p[i]) by {
                        assert(p[i] == q[i]);
                    }
                    lemma_moves_absorbed(popped, p, ws, d0);
                    lemma_handed_absorbed(p);
                    lemma_handed_concat(popped, p);
                    assert(handed_out(popped) + Seq::<JobStep>::empty() =~= handed_out(popped));
                    assert(mb == moves_of(popped + p, ws));
                }
                let mut sp = apply(world, region, queues, x, inp.fresh_id, inp.skill_roll, inp.reaction_outputs.as_ref(),
                    wood_material, mined_products);
                let ghost spv = spawn_view(sp@);
                let ghost before_sp = spawns@;
                let ghost run = posts(wb, x, outputs_view(ins_x), ins_x.skill_roll);
                spawns.append(&mut sp);
                proof {
                    assert(spawn_view(spawns@) =~= spawn_view(before_sp) + spv);
                    lemma_flatten_spawns_push(sps, spv);
                    assert(step_effect(wb, world@, rb, *region, x, ins_x, run, spv, wood_material, mined_products@));
                    lemma_extend(q0, w0, r0, popped, q, n, x, qb, xs, ins, ws, rs, runs, sps, wood_material,
                        mined_products@, ins_x, world@, *region, run, spv);
                    lemma_posts_lower(wb, x, outputs_view(ins_x), ins_x.skill_roll);
                    lemma_measure(q, n, x, qb, run);
                    {
                        let p = q.take(n);
                        let pp = popped + (p + seq![x]);
                        let ws1 = ws.push(world@);
                        lemma_moves_extend_ws(popped + p, ws, world@);
                        assert(pp.drop_last() =~= popped + p);
                        assert(pp.last() == x);
                        assert(ws1[xs.len() as int] == wb);
                        assert(queues.movers@ == moves_of(pp, ws1));
                    }
                    let xs1 = xs.push(x);
                    let ins1 = ins.push(ins_x);
                    let wvs1 = wvs.push(wv);
                    let ws1 = ws.push(world@);
                    assert forall|i: int| 0 <= i < xs1.len() implies (#[trigger] wvs1[i])@ == ws1[i]
                        && call_ensures(inputs, (&xs1[i], &wvs1[i]), ins1[i]) by {
                        if i < xs.len() {
                            assert(xs1[i] == xs[i] && ins1[i] == ins[i] && wvs1[i] == wvs[i] && ws1[i] == ws[i]);
                        } else {
                            assert(ws1[i] == ws.last());
                        }
                    }
                    wvs = wvs1;
                    popped = popped + (q.take(n) + seq![x]);
                    xs = xs1;
                    ins = ins1;
                    ws = ws.push(world@);
                    rs = rs.push(*region);
                    runs = runs.push(run);
                    sps = sps.push(spv);
                }
            },
        }
    }
    let ghost a = absorb_all(no_drain(), popped);
    assert(drain.vox_moved == a.0 && drain.models_moved == a.1 && drain.lights_changed == a.2 && drain.tiles_dirty@ == a.3);
    movers(queues, entities, gs);
    finish_drain(drain, gs);
    Ok(spawns)
}

} // verus!
