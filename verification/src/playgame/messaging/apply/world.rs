//! Applying one queued message to the entities of the world. Each entity is
//! held as a record of the plain values that the messages read and change;
//! the message kind decides which records change, which are removed or
//! added, and which further messages are posted.

use vstd::prelude::*;
use crate::components::{JobType, MiningMode, Point3, ToolType, job_path, job_with_path};
use crate::region::Region;
use crate::distance::{sq_dist, tile_point, tile_points, tile_to_point, nearest_index, lemma_nearest_exists};
use crate::spatial::REGION_TILES_COUNT;
use crate::playgame::messaging::{MessageQueues, posted, vox_moved, lights_changed};
use crate::playgame::messaging::job_step::JobStep;
use super::{move_target, job_concluded, building_finished, delete_all, reaction_material,
    reaction_performed, spawn_all, blueprint_ready};
use super::pathing::{follow_path, tile_of};
use super::lumber::{locate_target, damage_tree};
use super::mining::{dig_target, dug_tiles, dug_dirty, pick_dig_target, apply_dig};
use crate::playgame::messaging::dirty_block_fits;
use super::job_designations::{find_closest_tool, is_closest_tool, drop_associated_tool, drops, ClaimedTool};

verus! {

broadcast use vstd::std_specs::hash::group_hash_axioms;

/// One entity of the world: its id, the tile it stands on (or last stood on
/// before it was picked up), who carries it, and the components that
/// messages read and change, each `None` when the entity lacks it: a job,
/// a claim by another entity, a haul request (who is hauling it, and where
/// to), a blueprint (ready to build, and the items it needs), a reaction
/// job (workshop, reaction tag, who is working it), a material, a building
/// (complete or not), a light (enabled or not), a tool (its use), and a
/// settler (whether a miner, whether a lumberjack), a tree (whether it is
/// marked for cutting, and its health), a mining designation, and a field of
/// view (whether it must be recomputed).
pub struct EntityRecord {
    pub id: usize,
    pub tile: usize,
    pub carried_by: Option<usize>,
    pub job: Option<JobType>,
    pub claimed_by: Option<usize>,
    pub haul: Option<(Option<usize>, usize)>,
    pub blueprint: Option<(bool, Vec<usize>)>,
    pub reaction: Option<(usize, String, Option<usize>)>,
    pub material: Option<usize>,
    pub building: Option<bool>,
    pub light: Option<bool>,
    pub tool: Option<ToolType>,
    pub settler: Option<(bool, bool)>,
    pub tree: Option<(bool, i32)>,
    pub designation: Option<MiningMode>,
    pub view_dirty: Option<bool>,
}

/// No two entities share an id.
pub open spec fn ids_unique(w: Seq<EntityRecord>) -> bool {
    forall|i: int, j: int| 0 <= i < w.len() && 0 <= j < w.len() && i != j ==> #[trigger] w[i].id != #[trigger] w[j].id
}

/// Some entity has id `id`.
pub open spec fn has_record(w: Seq<EntityRecord>, id: usize) -> bool {
    exists|i: int| 0 <= i < w.len() && #[trigger] w[i].id == id
}

/// The position of the entity with id `id` (meaningful when there is one).
pub open spec fn index_of(w: Seq<EntityRecord>, id: usize) -> int {
    choose|i: int| 0 <= i < w.len() && #[trigger] w[i].id == id
}

/// The entity with id `id` (meaningful when there is one).
pub open spec fn record_of(w: Seq<EntityRecord>, id: usize) -> EntityRecord {
    w[index_of(w, id)]
}

proof fn lemma_index_of(w: Seq<EntityRecord>, id: usize, i: int)
    requires
        ids_unique(w),
        0 <= i < w.len(),
        w[i].id == id,
    ensures
        has_record(w, id),
        index_of(w, id) == i,
{
    let k = index_of(w, id);
    assert(0 <= k < w.len() && w[k].id == id);
    if k != i {
        assert(w[k].id != w[i].id);
    }
}

/// The position of the entity with id `id`, if there is one.
fn find_record(world: &Vec<EntityRecord>, id: usize) -> (r: Option<usize>)
    requires
        ids_unique(world@),
    ensures
        r is None <==> !has_record(world@, id),
        r matches Some(i) ==> i < world@.len() && world@[i as int].id == id && index_of(world@, id) == i,
{
    let mut i: usize = 0;
    while i < world.len()
        invariant
            i <= world@.len(),
            ids_unique(world@),
            forall|j: int| 0 <= j < i ==> (#[trigger] world@[j]).id != id,
        decreases world@.len() - i,
    {
        if world[i].id == id {
            proof {
                lemma_index_of(world@, id, i as int);
            }
            return Some(i);
        }
        i = i + 1;
    }
    None
}

/// Blueprint record `r` becomes ready to build when item `item_id` is
/// claimed for it and every item it needs lies within one tile step of it
/// (distance at most 1.4, so not diagonally).
pub open spec fn blueprint_becomes_ready(w: Seq<EntityRecord>, r: EntityRecord, item_id: usize) -> bool {
    &&& r.blueprint is Some
    &&& has_record(w, item_id)
    &&& record_of(w, item_id).claimed_by == Some(r.id)
    &&& forall|k: int| 0 <= k < (r.blueprint->0).1@.len() ==>
        sq_dist(tile_point(r.tile as int), tile_point(record_of(w, #[trigger] (r.blueprint->0).1@[k]).tile as int)) <= 1
}

/// Record `r` after `step`, for the messages that change one named record
/// in place (jobs, carrying, hauls, reactions in progress, buildings,
/// blueprints): only the record that the message names, and only when it
/// has the component the message works on.
pub open spec fn changed(w: Seq<EntityRecord>, r: EntityRecord, step: JobStep) -> EntityRecord {
    match step {
        JobStep::JobChanged { id, new_job } =>
            if r.id == id && r.job is Some { EntityRecord { job: Some(new_job), ..r } } else { r },
        JobStep::JobCancelled { id } =>
            if r.id == id && r.job is Some { EntityRecord { job: Some(JobType::NoJob), ..r } } else { r },
        JobStep::JobConcluded { id } =>
            if r.id == id && r.job is Some { EntityRecord { job: Some(JobType::NoJob), ..r } } else { r },
        JobStep::DropItem { id, location } =>
            if r.id == id { EntityRecord { tile: location, carried_by: None, ..r } } else { r },
        JobStep::GetItem { id, item_id } =>
            if r.id == item_id { EntityRecord { carried_by: Some(id), ..r } } else { r },
        JobStep::EquipItem { id, tool_id } =>
            if r.id == tool_id { EntityRecord { carried_by: Some(id), ..r } } else { r },
        JobStep::HaulInProgress { id, by } =>
            if r.id == id && r.haul is Some { EntityRecord { haul: Some((Some(by), (r.haul->0).1)), ..r } } else { r },
        JobStep::ReactionInProgress { id, by } =>
            if r.id == id && r.reaction is Some {
                EntityRecord { reaction: Some(((r.reaction->0).0, (r.reaction->0).1, Some(by))), ..r }
            } else { r },
        JobStep::RemoveHaulTag { id } =>
            if r.id == id { EntityRecord { haul: None, ..r } } else { r },
        JobStep::FinishBuilding { building_id } =>
            if r.id == building_id && r.building is Some {
                EntityRecord {
                    building: Some(true),
                    light: if r.light is Some { Some(true) } else { None },
                    blueprint: None,
                    ..r
                }
            } else { r },
        JobStep::UpdateBlueprint { item_id } =>
            if blueprint_becomes_ready(w, r, item_id) {
                EntityRecord { blueprint: Some((true, (r.blueprint->0).1)), ..r }
            } else { r },
        _ => r,
    }
}

/// Record `a` is record `b` after entity `id` takes a step along its job's
/// path: the path of the current step loses its first tile.
pub open spec fn stepped(b: EntityRecord, a: EntityRecord, id: usize) -> bool {
    match b.job {
        Some(j) => match job_path(j) {
            Some(p) if b.id == id => {
                &&& a.job matches Some(k) && job_with_path(j, k, p.drop_first())
                &&& a == EntityRecord { job: a.job, ..b }
            },
            _ => a == b,
        },
        None => a == b,
    }
}

/// `r` is a tree marked for cutting.
pub open spec fn marked_tree(r: EntityRecord) -> bool {
    r.tree matches Some(t) && t.0
}

/// The positions in `w` of the trees marked for cutting, in order.
pub open spec fn marked_trees(w: Seq<EntityRecord>) -> Seq<int>
    decreases w.len(),
{
    if w.len() == 0 {
        Seq::empty()
    } else {
        marked_trees(w.drop_last()) + if marked_tree(w.last()) { seq![w.len() - 1] } else { Seq::empty() }
    }
}

/// The tiles of the trees marked for cutting, in order.
pub open spec fn marked_tiles(w: Seq<EntityRecord>) -> Seq<usize> {
    Seq::new(marked_trees(w).len(), |k: int| w[marked_trees(w)[k]].tile)
}

/// The tree that a lumberjack cutting next to tile `pos` works on: the
/// first of the marked trees nearest to it; none when no tree is marked.
pub open spec fn chop_target(w: Seq<EntityRecord>, pos: usize) -> Option<int> {
    if marked_trees(w).len() == 0 {
        None
    } else {
        Some(marked_trees(w)[nearest_index(tile_point(pos as int), tile_points(marked_tiles(w)))])
    }
}

/// The health that the target tree has left after a blow of `roll`.
pub open spec fn health_after(w: Seq<EntityRecord>, pos: usize, roll: i32) -> int {
    (w[chop_target(w, pos)->0].tree->0).1 - roll
}

/// A successful blow (`roll` above zero) on a tree fells it when it leaves
/// it with less than 1 health.
pub open spec fn felled(w: Seq<EntityRecord>, pos: usize, roll: i32) -> bool {
    chop_target(w, pos) is Some && roll > 0 && health_after(w, pos, roll) < 1
}

pub(crate) proof fn lemma_marked_trees(w: Seq<EntityRecord>)
    ensures
        forall|k: int| 0 <= k < marked_trees(w).len() ==>
            0 <= #[trigger] marked_trees(w)[k] < w.len() && marked_tree(w[marked_trees(w)[k]]),
    decreases w.len(),
{
    if w.len() > 0 {
        lemma_marked_trees(w.drop_last());
        let m = marked_trees(w);
        let m0 = marked_trees(w.drop_last());
        assert forall|k: int| 0 <= k < m.len() implies
            0 <= #[trigger] m[k] < w.len() && marked_tree(w[m[k]]) by {
            if k < m0.len() {
                assert(m[k] == m0[k]);
                assert(w.drop_last()[m0[k]] == w[m0[k]]);
            }
        }
    }
}

/// The mining designations among `w` (tile and kind), in order.
pub open spec fn designations(w: Seq<EntityRecord>) -> Seq<(usize, MiningMode)>
    decreases w.len(),
{
    if w.len() == 0 {
        Seq::empty()
    } else {
        designations(w.drop_last()) + match w.last().designation {
            Some(m) => seq![(w.last().tile, m)],
            None => Seq::empty(),
        }
    }
}

/// The designation that `step` works, when it is a dig with a successful
/// skill roll and a designation lies close enough.
pub open spec fn dig_done(w: Seq<EntityRecord>, step: JobStep, roll: i32) -> Option<(usize, MiningMode)> {
    match step {
        JobStep::DigAt { pos, .. } => if roll > 0 { dig_target(designations(w), pos) } else { None },
        _ => None,
    }
}

/// `r` is a mining designation on tile `t`.
pub open spec fn designation_at(r: EntityRecord, t: usize) -> bool {
    r.designation is Some && r.tile == t
}

/// Record `r` with its field of view, if it has one, to be recomputed.
pub open spec fn view_invalidated(r: EntityRecord) -> EntityRecord {
    if r.view_dirty is Some { EntityRecord { view_dirty: Some(true), ..r } } else { r }
}

/// The world without the mining designations on tile `t`.
pub open spec fn undesignated(w: Seq<EntityRecord>, t: usize) -> Seq<EntityRecord>
    decreases w.len(),
{
    if w.len() == 0 {
        Seq::empty()
    } else {
        undesignated(w.drop_last(), t) + if designation_at(w.last(), t) { Seq::empty() } else { seq![w.last()] }
    }
}

/// What digging yields: one item per product of the tile's material, on the
/// dug tile and of its material; digging of other kinds yields nothing.
pub open spec fn dig_yield(w: Seq<EntityRecord>, step: JobStep, roll: i32, materials: Seq<usize>, products: Seq<Vec<String>>)
    -> Seq<(usize, Seq<char>, usize)> {
    match dig_done(w, step, roll) {
        Some((m, MiningMode::Dig)) => {
            let mat = materials[m as int];
            Seq::new(products[mat as int]@.len(), |k: int| (m, products[mat as int]@[k]@, mat))
        },
        _ => Seq::empty(),
    }
}

/// The inputs on which a dig at `pos` is defined: the miner and the
/// designations stand on region tiles, and the designation worked (if any)
/// can be dug in the region, with the products of its material known.
pub open spec fn can_dig(w: Seq<EntityRecord>, region: Region, products: Seq<Vec<String>>, pos: usize, roll: i32) -> bool {
    &&& region.wf()
    &&& pos < REGION_TILES_COUNT
    &&& forall|k: int| 0 <= k < designations(w).len() ==> (#[trigger] designations(w)[k]).0 < REGION_TILES_COUNT
    &&& match dig_done(w, JobStep::DigAt { id: 0, pos }, roll) {
        Some((m, mode)) => {
            &&& mode != MiningMode::Ramp ==> m < region.tile_count() && dirty_block_fits(m as int)
            &&& mode == MiningMode::Channel ==> m >= 65536 && dirty_block_fits(m - 65536)
            &&& mode == MiningMode::Dig ==> region.material_idx@[m as int] < products.len()
        },
        None => true,
    }
}

proof fn lemma_undesignated_in(w: Seq<EntityRecord>, t: usize)
    ensures
        forall|k: int| 0 <= k < undesignated(w, t).len() ==> w.contains(#[trigger] undesignated(w, t)[k]),
    decreases w.len(),
{
    if w.len() > 0 {
        let d = w.drop_last();
        lemma_undesignated_in(d, t);
        let u = undesignated(w, t);
        let u0 = undesignated(d, t);
        assert forall|k: int| 0 <= k < u.len() implies w.contains(#[trigger] u[k]) by {
            if k < u0.len() {
                assert(u[k] == u0[k]);
                let j = choose|j: int| 0 <= j < d.len() && d[j] == u0[k];
                assert(w[j] == d[j]);
            } else {
                assert(u[k] == w.last());
                assert(w[w.len() - 1] == w.last());
            }
        }
    }
}

proof fn lemma_undesignated_unique(w: Seq<EntityRecord>, t: usize)
    requires
        ids_unique(w),
    ensures
        ids_unique(undesignated(w, t)),
    decreases w.len(),
{
    if w.len() > 0 {
        let d = w.drop_last();
        assert(ids_unique(d)) by {
            assert forall|a: int, b: int| 0 <= a < d.len() && 0 <= b < d.len() && a != b implies #[trigger] d[a].id != #[trigger] d[b].id by {
                assert(d[a] == w[a] && d[b] == w[b]);
            }
        }
        lemma_undesignated_unique(d, t);
        lemma_undesignated_in(d, t);
        let u = undesignated(w, t);
        let u0 = undesignated(d, t);
        if !designation_at(w.last(), t) {
            assert forall|a: int, b: int| 0 <= a < u.len() && 0 <= b < u.len() && a != b implies #[trigger] u[a].id != #[trigger] u[b].id by {
                if a < u0.len() && b < u0.len() {
                    assert(u[a] == u0[a] && u[b] == u0[b]);
                } else if a < u0.len() {
                    assert(u[a] == u0[a]);
                    assert(d.contains(u0[a]));
                    let j = choose|j: int| 0 <= j < d.len() && d[j] == u0[a];
                    assert(w[j] == d[j] && u[b] == w[w.len() - 1]);
                } else if b < u0.len() {
                    assert(u[b] == u0[b]);
                    assert(d.contains(u0[b]));
                    let j = choose|j: int| 0 <= j < d.len() && d[j] == u0[b];
                    assert(w[j] == d[j] && u[a] == w[w.len() - 1]);
                }
            }
        } else {
            assert(u =~= u0);
        }
    }
}

/// The world without the entity with id `id`, if there is one.
pub open spec fn removed(w: Seq<EntityRecord>, id: usize) -> Seq<EntityRecord> {
    if has_record(w, id) { w.remove(index_of(w, id)) } else { w }
}

/// The reaction job entity that `CreateReactionJob` adds: it stands on the
/// workshop's tile, names the workshop and the reaction, and needs the
/// components, being ready to build at once when there are none.
pub open spec fn new_reaction_job(id: usize, tile: usize, workshop_id: usize, reaction_tag: String, components: Vec<usize>) -> EntityRecord {
    EntityRecord {
        id,
        tile,
        carried_by: None,
        job: None,
        claimed_by: None,
        haul: None,
        blueprint: Some((components@.len() == 0, components)),
        reaction: Some((workshop_id, reaction_tag, None)),
        material: None,
        building: None,
        light: None,
        tool: None,
        settler: None,
        tree: None,
        designation: None,
        view_dirty: None,
    }
}

/// Record `r` once the components `components` are claimed by reaction job
/// `job_id` and asked to be hauled to tile `dest`.
pub open spec fn claimed_for(r: EntityRecord, components: Seq<usize>, job_id: usize, dest: usize) -> EntityRecord {
    if components.contains(r.id) {
        EntityRecord { claimed_by: Some(job_id), haul: Some((None, dest)), ..r }
    } else {
        r
    }
}

/// The world after `step`, with `fresh_id` the id given to an entity that
/// the step creates and `roll` the worker's skill roll.
pub open spec fn world_after(w: Seq<EntityRecord>, a: Seq<EntityRecord>, step: JobStep, fresh_id: usize, roll: i32) -> bool {
    match step {
        JobStep::FollowJobPath { id } =>
            a.len() == w.len() && forall|i: int| 0 <= i < w.len() ==> #[trigger] stepped(w[i], a[i], id),
        JobStep::DeleteItem { id } => a == removed(w, id),
        JobStep::DeleteBuilding { building_id } => a == removed(w, building_id),
        JobStep::PerformReaction { reaction_id } => a == removed(w, reaction_id),
        JobStep::TreeChop { tree_pos, .. } =>
            if felled(w, tree_pos, roll) {
                a == w.remove(chop_target(w, tree_pos)->0)
            } else if chop_target(w, tree_pos) is Some && roll > 0 {
                let t = chop_target(w, tree_pos)->0;
                a == w.update(t, EntityRecord { tree: Some(((w[t].tree->0).0, health_after(w, tree_pos, roll) as i32)), ..w[t] })
            } else {
                a == w
            },
        JobStep::DigAt { .. } =>
            match dig_done(w, step, roll) {
                Some((m, _)) => a == Seq::new(undesignated(w, m).len(), |k: int| view_invalidated(undesignated(w, m)[k])),
                None => a == w,
            },
        JobStep::BecomeMiner { id } => hired(w, a, id, true),
        JobStep::BecomeLumberjack { id } => hired(w, a, id, false),
        JobStep::FireMiner { id } => a == Seq::new(w.len(), |k: int| with_trade(w[k], id, true, false)),
        JobStep::FireLumberjack { id } => a == Seq::new(w.len(), |k: int| with_trade(w[k], id, false, false)),
        JobStep::CreateReactionJob { workshop_id, components, reaction_tag } => {
            let dest = record_of(w, workshop_id).tile;
            let pushed = w.push(new_reaction_job(fresh_id, dest, workshop_id, reaction_tag, components));
            a == Seq::new(pushed.len(), |i: int| claimed_for(pushed[i], components@, fresh_id, dest))
        },
        _ => a == Seq::new(w.len(), |i: int| changed(w, w[i], step)),
    }
}

/// The material of the products of a reaction that needs `items`: that of
/// the first item, or 0 when there is none or it has no material.
pub open spec fn product_material(w: Seq<EntityRecord>, items: Seq<usize>) -> usize {
    if items.len() > 0 && has_record(w, items[0]) && record_of(w, items[0]).material is Some {
        record_of(w, items[0]).material->0
    } else {
        0
    }
}

/// The messages that applying `step` to world `w` posts, in order;
/// `outputs` are the products of the reaction that `step` performs, when it
/// is known.
pub open spec fn posts(w: Seq<EntityRecord>, step: JobStep, outputs: Option<Seq<(String, i32)>>, roll: i32) -> Seq<JobStep> {
    match step {
        JobStep::JobConcluded { id } =>
            if has_record(w, id) {
                match record_of(w, id).job {
                    Some(JobType::Haul { item_id, .. }) => seq![JobStep::RemoveHaulTag { id: item_id }],
                    _ => Seq::empty(),
                }
            } else {
                Seq::empty()
            },
        JobStep::DropItem { .. } => seq![JobStep::VoxMoved],
        JobStep::GetItem { .. } => seq![JobStep::VoxMoved],
        JobStep::EquipItem { .. } => seq![JobStep::VoxMoved],
        JobStep::DeleteItem { .. } => seq![JobStep::VoxMoved],
        JobStep::DeleteBuilding { .. } => seq![JobStep::VoxMoved, JobStep::LightsChanged],
        JobStep::FireMiner { id } => drops(claimed_tools(w, w), ToolType::Digging, id),
        JobStep::DigAt { .. } =>
            match dig_done(w, step, roll) {
                Some((m, mode)) => dug_dirty(m as int, mode),
                None => Seq::empty(),
            },
        JobStep::TreeChop { tree_pos, .. } =>
            if felled(w, tree_pos, roll) { seq![JobStep::ModelsMoved, JobStep::VoxMoved] } else { Seq::empty() },
        JobStep::FireLumberjack { id } => drops(claimed_tools(w, w), ToolType::Chopping, id),
        JobStep::FinishBuilding { building_id } =>
            if has_record(w, building_id) && record_of(w, building_id).building is Some {
                let r = record_of(w, building_id);
                (if r.light is Some { seq![JobStep::LightsChanged] } else { Seq::empty() })
                + match r.blueprint { Some(bp) => delete_all(bp.1@), None => Seq::empty() }
            } else {
                Seq::empty()
            },
        JobStep::PerformReaction { reaction_id } => {
            let r = record_of(w, reaction_id);
            let items = (r.blueprint->0).1@;
            delete_all(items)
            + match outputs { Some(o) => spawn_all(o, r.tile, product_material(w, items)), None => Seq::empty() }
            + seq![JobStep::VoxMoved]
        },
        _ => Seq::empty(),
    }
}

/// Where moved entities end up after `step`: a move records its target, and
/// a step along a path records the path's first tile.
pub open spec fn movers_after(w: Seq<EntityRecord>, m: Map<usize, (usize, usize, usize)>, step: JobStep) -> Map<usize, (usize, usize, usize)> {
    match step {
        JobStep::EntityMoved { id, end } => m.insert(id, move_target(end)),
        JobStep::FollowJobPath { id } =>
            if has_record(w, id) {
                match record_of(w, id).job {
                    Some(j) => match job_path(j) {
                        Some(p) => m.insert(id, tile_of(p[0])),
                        None => m,
                    },
                    None => m,
                }
            } else {
                m
            },
        _ => m,
    }
}

/// The items that `step` asks to be spawned, one entry (tile, tag,
/// material) per item; `materials` are the region's tile materials and
/// `products` what each material yields when mined.
pub open spec fn spawn_requests(w: Seq<EntityRecord>, step: JobStep, roll: i32, wood_material: usize,
    materials: Seq<usize>, products: Seq<Vec<String>>) -> Seq<(usize, Seq<char>, usize)> {
    match step {
        JobStep::DigAt { .. } => dig_yield(w, step, roll, materials, products),
        JobStep::SpawnItem { pos, tag, qty, material } =>
            Seq::new(if qty > 0 { qty as nat } else { 0 }, |i: int| (pos, tag@, material)),
        JobStep::TreeChop { tree_pos, .. } =>
            if felled(w, tree_pos, roll) {
                seq![(w[chop_target(w, tree_pos)->0].tile, "wood_log"@, wood_material)]
            } else {
                Seq::empty()
            },
        _ => Seq::empty(),
    }
}

/// Spawn requests with their tags as text.
pub open spec fn spawn_view(s: Seq<(usize, String, usize)>) -> Seq<(usize, Seq<char>, usize)> {
    Seq::new(s.len(), |i: int| (s[i].0, s[i].1@, s[i].2))
}

/// `r` is a tool for `usage` that nobody has claimed.
pub open spec fn free_tool(r: EntityRecord, usage: ToolType) -> bool {
    r.tool == Some(usage) && r.claimed_by is None
}

/// The point of the tile that record `r` stands on.
pub open spec fn record_point(r: EntityRecord) -> Point3 {
    tile_point(r.tile as int)
}

/// `w[c]` is the first of the free tools for `usage` nearest to `origin`.
pub open spec fn is_chosen_tool(w: Seq<EntityRecord>, usage: ToolType, origin: Point3, c: int) -> bool {
    &&& 0 <= c < w.len()
    &&& free_tool(w[c], usage)
    &&& forall|j: int| 0 <= j < w.len() && free_tool(#[trigger] w[j], usage)
        ==> sq_dist(origin, record_point(w[c])) <= sq_dist(origin, record_point(w[j]))
    &&& forall|j: int| 0 <= j < c && free_tool(#[trigger] w[j], usage)
        ==> sq_dist(origin, record_point(w[c])) < sq_dist(origin, record_point(w[j]))
}

/// Entity `id` exists and is a settler.
pub open spec fn settler_of(w: Seq<EntityRecord>, id: usize) -> bool {
    has_record(w, id) && record_of(w, id).settler is Some
}

/// The tool of the miner's trade, or of the lumberjack's.
pub open spec fn trade_tool(miner: bool) -> ToolType {
    if miner { ToolType::Digging } else { ToolType::Chopping }
}

/// Record `r` with the miner's trade (or the lumberjack's) of settler `id`
/// set to `on`.
pub open spec fn with_trade(r: EntityRecord, id: usize, miner: bool, on: bool) -> EntityRecord {
    if r.id == id && r.settler is Some {
        let s = r.settler->0;
        EntityRecord { settler: Some(if miner { (on, s.1) } else { (s.0, on) }), ..r }
    } else {
        r
    }
}

/// Settler `id` takes up a trade: when it exists and a free tool of the
/// trade is left, the nearest such tool is claimed for it and the settler
/// takes the trade; otherwise nothing changes.
pub open spec fn hired(w: Seq<EntityRecord>, a: Seq<EntityRecord>, id: usize, miner: bool) -> bool {
    if settler_of(w, id) && exists|c: int| is_chosen_tool(w, trade_tool(miner), record_point(record_of(w, id)), c) {
        let c = choose|c: int| is_chosen_tool(w, trade_tool(miner), record_point(record_of(w, id)), c);
        let claimed = w.update(c, EntityRecord { claimed_by: Some(id), ..w[c] });
        a == Seq::new(w.len(), |k: int| with_trade(claimed[k], id, miner, true))
    } else {
        a == w
    }
}

/// Where record `r` effectively is in world `w`: where its carrier stands
/// when it is carried, else its own tile.
pub open spec fn effective_tile(w: Seq<EntityRecord>, r: EntityRecord) -> usize {
    match r.carried_by {
        Some(b) => if has_record(w, b) { record_of(w, b).tile } else { r.tile },
        None => r.tile,
    }
}

/// The claimed tools among `part` of world `w`, in order.
pub open spec fn claimed_tools(w: Seq<EntityRecord>, part: Seq<EntityRecord>) -> Seq<ClaimedTool>
    decreases part.len(),
{
    if part.len() == 0 {
        Seq::empty()
    } else {
        let r = part.last();
        claimed_tools(w, part.drop_last()) + match (r.tool, r.claimed_by) {
            (Some(u), Some(c)) => seq![ClaimedTool {
                tool_id: r.id,
                claimed_by: c,
                usage: u,
                carried_by: r.carried_by,
                location: effective_tile(w, r),
            }],
            _ => Seq::empty(),
        }
    }
}

/// A settler taking up a trade and the free tools of that trade stand on
/// region tiles.
pub open spec fn can_hire(w: Seq<EntityRecord>, id: usize, miner: bool) -> bool {
    settler_of(w, id) ==> {
        &&& record_of(w, id).tile < REGION_TILES_COUNT
        &&& forall|j: int| 0 <= j < w.len() && free_tool(#[trigger] w[j], trade_tool(miner)) ==> w[j].tile < REGION_TILES_COUNT
    }
}

/// The inputs on which applying `step` is defined: a path being followed is
/// not empty, a reaction job is created at an existing workshop under an
/// unused id, a reaction performed exists with its blueprint, and a
/// blueprint checked for readiness and the items it needs exist on region
/// tiles.
pub open spec fn can_apply(w: Seq<EntityRecord>, step: JobStep, fresh_id: usize, roll: i32) -> bool {
    match step {
        JobStep::FollowJobPath { id } =>
            has_record(w, id) ==> match record_of(w, id).job {
                Some(j) => match job_path(j) { Some(p) => p.len() > 0, None => true },
                None => true,
            },
        JobStep::CreateReactionJob { workshop_id, .. } =>
            has_record(w, workshop_id) && !has_record(w, fresh_id),
        JobStep::TreeChop { tree_pos, .. } => {
            &&& tree_pos < REGION_TILES_COUNT
            &&& forall|k: int| 0 <= k < w.len() && marked_tree(#[trigger] w[k]) ==> w[k].tile < REGION_TILES_COUNT
            &&& chop_target(w, tree_pos) is Some && roll > 0 ==> health_after(w, tree_pos, roll) >= i32::MIN
        },
        JobStep::BecomeMiner { id } => can_hire(w, id, true),
        JobStep::BecomeLumberjack { id } => can_hire(w, id, false),
        JobStep::PerformReaction { reaction_id } =>
            has_record(w, reaction_id) && record_of(w, reaction_id).reaction is Some
                && record_of(w, reaction_id).blueprint is Some,
        JobStep::UpdateBlueprint { item_id } =>
            has_record(w, item_id) ==> match record_of(w, item_id).claimed_by {
                Some(b) => has_record(w, b) ==> match record_of(w, b).blueprint {
                    Some(bp) => {
                        &&& record_of(w, b).tile < REGION_TILES_COUNT
                        &&& forall|k: int| 0 <= k < bp.1@.len() ==>
                            has_record(w, #[trigger] bp.1@[k]) && record_of(w, bp.1@[k]).tile < REGION_TILES_COUNT
                    },
                    None => true,
                },
                None => true,
            },
        _ => true,
    }
}

proof fn lemma_changed_at(w: Seq<EntityRecord>, step: JobStep, i: int, r: EntityRecord)
    requires
        0 <= i < w.len(),
        changed(w, w[i], step) == r,
        forall|k: int| 0 <= k < w.len() && k != i ==> changed(w, #[trigger] w[k], step) == w[k],
    ensures
        w.update(i, r) == Seq::new(w.len(), |k: int| changed(w, w[k], step)),
{
    assert(w.update(i, r) =~= Seq::new(w.len(), |k: int| changed(w, w[k], step)));
}

proof fn lemma_changed_none(w: Seq<EntityRecord>, step: JobStep)
    requires
        forall|k: int| 0 <= k < w.len() ==> changed(w, #[trigger] w[k], step) == w[k],
    ensures
        w == Seq::new(w.len(), |k: int| changed(w, w[k], step)),
{
    assert(w =~= Seq::new(w.len(), |k: int| changed(w, w[k], step)));
}

/// Replacing the record at `i` by one with the same id keeps ids unique.
proof fn lemma_unique_update(w: Seq<EntityRecord>, i: int, r: EntityRecord)
    requires
        ids_unique(w),
        0 <= i < w.len(),
        r.id == w[i].id,
    ensures
        ids_unique(w.update(i, r)),
{
    let u = w.update(i, r);
    assert forall|a: int, b: int| 0 <= a < u.len() && 0 <= b < u.len() && a != b implies #[trigger] u[a].id != #[trigger] u[b].id by {
        assert(u[a].id == w[a].id);
        assert(u[b].id == w[b].id);
    }
}

/// Removing a record keeps ids unique.
proof fn lemma_unique_remove(w: Seq<EntityRecord>, i: int)
    requires
        ids_unique(w),
        0 <= i < w.len(),
    ensures
        ids_unique(w.remove(i)),
{
    let u = w.remove(i);
    assert forall|a: int, b: int| 0 <= a < u.len() && 0 <= b < u.len() && a != b implies #[trigger] u[a].id != #[trigger] u[b].id by {
        let a0 = if a < i { a } else { a + 1 };
        let b0 = if b < i { b } else { b + 1 };
        assert(u[a] == w[a0]);
        assert(u[b] == w[b0]);
    }
}

/// The conditions every arm below establishes for its step.
pub open spec fn applied(w: Seq<EntityRecord>, a: Seq<EntityRecord>, q0: MessageQueues, q1: MessageQueues,
    step: JobStep, fresh_id: usize, outputs: Option<Seq<(String, i32)>>, roll: i32) -> bool {
    &&& ids_unique(a)
    &&& world_after(w, a, step, fresh_id, roll)
    &&& q1.jobs@ == q0.jobs@ + posts(w, step, outputs, roll)
    &&& q1.movers@ == movers_after(w, q0.movers@, step)
}

/// Puts record `r`, which is what `step` makes of the record taken out of
/// `w` at `i`, back in its place; `step` leaves every other record alone.
fn finish_change(world: &mut Vec<EntityRecord>, i: usize, r: EntityRecord, Ghost(w): Ghost<Seq<EntityRecord>>, Ghost(step): Ghost<JobStep>)
    requires
        ids_unique(w),
        i < w.len(),
        old(world)@ == w.remove(i as int),
        r.id == w[i as int].id,
        changed(w, w[i as int], step) == r,
        forall|k: int| 0 <= k < w.len() && k != i ==> changed(w, #[trigger] w[k], step) == w[k],
    ensures
        ids_unique(final(world)@),
        final(world)@ == Seq::new(w.len(), |k: int| changed(w, w[k], step)),
{
    world.insert(i, r);
    proof {
        assert(world@ =~= w.update(i as int, r));
        lemma_changed_at(w, step, i as int, r);
        lemma_unique_update(w, i as int, r);
    }
}

/// `step` names only the record with id `id`: all others are left alone.
pub open spec fn names_only(w: Seq<EntityRecord>, step: JobStep, id: usize) -> bool {
    forall|k: int| 0 <= k < w.len() && w[k].id != id ==> changed(w, #[trigger] w[k], step) == w[k]
}

proof fn lemma_others_unchanged(w: Seq<EntityRecord>, step: JobStep, id: usize, i: int)
    requires
        ids_unique(w),
        0 <= i < w.len(),
        w[i].id == id,
        names_only(w, step, id),
    ensures
        forall|k: int| 0 <= k < w.len() && k != i ==> changed(w, #[trigger] w[k], step) == w[k],
{
    assert forall|k: int| 0 <= k < w.len() && k != i implies changed(w, #[trigger] w[k], step) == w[k] by {
        assert(w[k].id != w[i].id);
    }
}

proof fn lemma_absent_unchanged(w: Seq<EntityRecord>, step: JobStep, id: usize)
    requires
        !has_record(w, id),
        names_only(w, step, id),
    ensures
        w == Seq::new(w.len(), |k: int| changed(w, w[k], step)),
{
    assert forall|k: int| 0 <= k < w.len() implies changed(w, #[trigger] w[k], step) == w[k] by {
        if w[k].id == id {
            assert(has_record(w, id));
        }
    }
    lemma_changed_none(w, step);
}

fn apply_job_changed(world: &mut Vec<EntityRecord>, id: usize, new_job: JobType)
    requires
        ids_unique(old(world)@),
    ensures
        ids_unique(final(world)@),
        final(world)@ == Seq::new(old(world)@.len(), |k: int| changed(old(world)@, old(world)@[k], JobStep::JobChanged { id, new_job })),
{
    let ghost w = world@;
    let ghost st = JobStep::JobChanged { id, new_job };
    assert(names_only(w, st, id));
    match find_record(world, id) {
        Some(i) => {
            proof { lemma_others_unchanged(w, st, id, i as int); }
            if world[i].job.is_some() {
                let mut r = world.remove(i);
                r.job = Some(new_job);
                finish_change(world, i, r, Ghost(w), Ghost(st));
            } else {
                proof { lemma_changed_none(w, st); }
            }
        },
        None => {
            proof { lemma_absent_unchanged(w, st, id); }
        },
    }
}

fn apply_job_cancelled(world: &mut Vec<EntityRecord>, id: usize)
    requires
        ids_unique(old(world)@),
    ensures
        ids_unique(final(world)@),
        final(world)@ == Seq::new(old(world)@.len(), |k: int| changed(old(world)@, old(world)@[k], JobStep::JobCancelled { id })),
{
    let ghost w = world@;
    let ghost st = JobStep::JobCancelled { id };
    assert(names_only(w, st, id));
    match find_record(world, id) {
        Some(i) => {
            proof { lemma_others_unchanged(w, st, id, i as int); }
            if world[i].job.is_some() {
                let mut r = world.remove(i);
                let mut j = JobType::Other;
                super::job_cancelled(&mut j);
                r.job = Some(j);
                finish_change(world, i, r, Ghost(w), Ghost(st));
            } else {
                proof { lemma_changed_none(w, st); }
            }
        },
        None => {
            proof { lemma_absent_unchanged(w, st, id); }
        },
    }
}

fn apply_job_concluded(world: &mut Vec<EntityRecord>, queues: &mut MessageQueues, id: usize)
    requires
        ids_unique(old(world)@),
    ensures
        ids_unique(final(world)@),
        final(world)@ == Seq::new(old(world)@.len(), |k: int| changed(old(world)@, old(world)@[k], JobStep::JobConcluded { id })),
        posted(*old(queues), *final(queues), posts(old(world)@, JobStep::JobConcluded { id }, None, 0)),
{
    let ghost w = world@;
    let ghost st = JobStep::JobConcluded { id };
    assert(names_only(w, st, id));
    match find_record(world, id) {
        Some(i) => {
            proof { lemma_others_unchanged(w, st, id, i as int); }
            if world[i].job.is_some() {
                let mut r = world.remove(i);
                let mut j = r.job.take().unwrap();
                job_concluded(queues, &mut j);
                r.job = Some(j);
                finish_change(world, i, r, Ghost(w), Ghost(st));
            } else {
                proof { lemma_changed_none(w, st); }
                assert(queues.jobs@ =~= old(queues).jobs@ + posts(w, st, None, 0));
            }
        },
        None => {
            proof { lemma_absent_unchanged(w, st, id); }
            assert(queues.jobs@ =~= old(queues).jobs@ + posts(w, st, None, 0));
        },
    }
}

fn apply_carry(world: &mut Vec<EntityRecord>, queues: &mut MessageQueues, Ghost(st): Ghost<JobStep>, item: usize, carrier: Option<usize>, location: usize)
    requires
        ids_unique(old(world)@),
        match st {
            JobStep::DropItem { id, location: l } => id == item && carrier is None && l == location,
            JobStep::GetItem { id, item_id } => item_id == item && carrier == Some(id),
            JobStep::EquipItem { id, tool_id } => tool_id == item && carrier == Some(id),
            _ => false,
        },
    ensures
        ids_unique(final(world)@),
        final(world)@ == Seq::new(old(world)@.len(), |k: int| changed(old(world)@, old(world)@[k], st)),
        posted(*old(queues), *final(queues), posts(old(world)@, st, None, 0)),
{
    let ghost w = world@;
    assert(names_only(w, st, item));
    match find_record(world, item) {
        Some(i) => {
            proof { lemma_others_unchanged(w, st, item, i as int); }
            let mut r = world.remove(i);
            match carrier {
                Some(by) => {
                    r.carried_by = Some(by);
                },
                None => {
                    r.tile = location;
                    r.carried_by = None;
                },
            }
            finish_change(world, i, r, Ghost(w), Ghost(st));
        },
        None => {
            proof { lemma_absent_unchanged(w, st, item); }
        },
    }
    vox_moved(queues);
}

fn apply_haul_in_progress(world: &mut Vec<EntityRecord>, id: usize, by: usize)
    requires
        ids_unique(old(world)@),
    ensures
        ids_unique(final(world)@),
        final(world)@ == Seq::new(old(world)@.len(), |k: int| changed(old(world)@, old(world)@[k], JobStep::HaulInProgress { id, by })),
{
    let ghost w = world@;
    let ghost st = JobStep::HaulInProgress { id, by };
    assert(names_only(w, st, id));
    match find_record(world, id) {
        Some(i) => {
            proof { lemma_others_unchanged(w, st, id, i as int); }
            match world[i].haul {
                Some((_, dest)) => {
                    let mut r = world.remove(i);
                    r.haul = Some((Some(by), dest));
                    finish_change(world, i, r, Ghost(w), Ghost(st));
                },
                None => {
                    proof { lemma_changed_none(w, st); }
                },
            }
        },
        None => {
            proof { lemma_absent_unchanged(w, st, id); }
        },
    }
}

fn apply_reaction_in_progress(world: &mut Vec<EntityRecord>, id: usize, by: usize)
    requires
        ids_unique(old(world)@),
    ensures
        ids_unique(final(world)@),
        final(world)@ == Seq::new(old(world)@.len(), |k: int| changed(old(world)@, old(world)@[k], JobStep::ReactionInProgress { id, by })),
{
    let ghost w = world@;
    let ghost st = JobStep::ReactionInProgress { id, by };
    assert(names_only(w, st, id));
    match find_record(world, id) {
        Some(i) => {
            proof { lemma_others_unchanged(w, st, id, i as int); }
            if world[i].reaction.is_some() {
                let mut r = world.remove(i);
                let rc = r.reaction.take();
                match rc {
                    Some((workshop, tag, _)) => {
                        r.reaction = Some((workshop, tag, Some(by)));
                    },
                    None => {},
                }
                finish_change(world, i, r, Ghost(w), Ghost(st));
            } else {
                proof { lemma_changed_none(w, st); }
            }
        },
        None => {
            proof { lemma_absent_unchanged(w, st, id); }
        },
    }
}

fn apply_remove_haul_tag(world: &mut Vec<EntityRecord>, id: usize)
    requires
        ids_unique(old(world)@),
    ensures
        ids_unique(final(world)@),
        final(world)@ == Seq::new(old(world)@.len(), |k: int| changed(old(world)@, old(world)@[k], JobStep::RemoveHaulTag { id })),
{
    let ghost w = world@;
    let ghost st = JobStep::RemoveHaulTag { id };
    assert(names_only(w, st, id));
    match find_record(world, id) {
        Some(i) => {
            proof { lemma_others_unchanged(w, st, id, i as int); }
            let mut r = world.remove(i);
            r.haul = None;
            finish_change(world, i, r, Ghost(w), Ghost(st));
        },
        None => {
            proof { lemma_absent_unchanged(w, st, id); }
        },
    }
}

fn apply_finish_building(world: &mut Vec<EntityRecord>, queues: &mut MessageQueues, building_id: usize)
    requires
        ids_unique(old(world)@),
    ensures
        ids_unique(final(world)@),
        final(world)@ == Seq::new(old(world)@.len(), |k: int| changed(old(world)@, old(world)@[k], JobStep::FinishBuilding { building_id })),
        posted(*old(queues), *final(queues), posts(old(world)@, JobStep::FinishBuilding { building_id }, None, 0)),
{
    let ghost w = world@;
    let ghost st = JobStep::FinishBuilding { building_id };
    assert(names_only(w, st, building_id));
    match find_record(world, building_id) {
        Some(i) => {
            proof { lemma_others_unchanged(w, st, building_id, i as int); }
            if world[i].building.is_some() {
                let mut r = world.remove(i);
                r.building = Some(true);
                let has_light = r.light.is_some();
                if has_light {
                    r.light = Some(true);
                }
                let bp = r.blueprint.take();
                match &bp {
                    Some(b) => building_finished(queues, has_light, Some(&b.1)),
                    None => building_finished(queues, has_light, None),
                }
                finish_change(world, i, r, Ghost(w), Ghost(st));
            } else {
                proof { lemma_changed_none(w, st); }
                assert(queues.jobs@ =~= old(queues).jobs@ + posts(w, st, None, 0));
            }
        },
        None => {
            proof { lemma_absent_unchanged(w, st, building_id); }
            assert(queues.jobs@ =~= old(queues).jobs@ + posts(w, st, None, 0));
        },
    }
}

fn apply_follow_path(world: &mut Vec<EntityRecord>, queues: &mut MessageQueues, id: usize)
    requires
        ids_unique(old(world)@),
        can_apply(old(world)@, JobStep::FollowJobPath { id }, 0, 0),
    ensures
        ids_unique(final(world)@),
        world_after(old(world)@, final(world)@, JobStep::FollowJobPath { id }, 0, 0),
        final(queues).jobs@ == old(queues).jobs@,
        final(queues).movers@ == movers_after(old(world)@, old(queues).movers@, JobStep::FollowJobPath { id }),
{
    let ghost w = world@;
    match find_record(world, id) {
        Some(i) => {
            let mut r = world.remove(i);
            match r.job.take() {
                Some(mut j) => {
                    follow_path(queues, id, &mut j);
                    r.job = Some(j);
                },
                None => {},
            }
            world.insert(i, r);
            proof {
                assert(world@ =~= w.update(i as int, r));
                lemma_unique_update(w, i as int, r);
                assert forall|k: int| 0 <= k < w.len() implies #[trigger] stepped(w[k], world@[k], id) by {
                    if k != i {
                        assert(w[k].id != w[i as int].id);
                    }
                }
            }
        },
        None => {
            assert forall|k: int| 0 <= k < w.len() implies #[trigger] stepped(w[k], world@[k], id) by {
                if w[k].id == id {
                    assert(has_record(w, id));
                }
            }
        },
    }
}

fn apply_delete(world: &mut Vec<EntityRecord>, id: usize)
    requires
        ids_unique(old(world)@),
    ensures
        ids_unique(final(world)@),
        final(world)@ == removed(old(world)@, id),
{
    let ghost w = world@;
    match find_record(world, id) {
        Some(i) => {
            world.remove(i);
            proof { lemma_unique_remove(w, i as int); }
        },
        None => {},
    }
}

/// The points of the tiles of the entities with ids `items`.
fn component_points(world: &Vec<EntityRecord>, items: &Vec<usize>) -> (pts: Vec<Point3>)
    requires
        ids_unique(world@),
        forall|k: int| 0 <= k < items@.len() ==>
            has_record(world@, #[trigger] items@[k]) && record_of(world@, items@[k]).tile < REGION_TILES_COUNT,
    ensures
        pts@.len() == items@.len(),
        forall|k: int| 0 <= k < items@.len() ==> #[trigger] pts@[k] == tile_point(record_of(world@, items@[k]).tile as int),
{
    let mut pts: Vec<Point3> = Vec::new();
    let mut k: usize = 0;
    while k < items.len()
        invariant
            k <= items@.len(),
            ids_unique(world@),
            forall|j: int| 0 <= j < items@.len() ==>
                has_record(world@, #[trigger] items@[j]) && record_of(world@, items@[j]).tile < REGION_TILES_COUNT,
            pts@.len() == k,
            forall|j: int| 0 <= j < k ==> #[trigger] pts@[j] == tile_point(record_of(world@, items@[j]).tile as int),
        decreases items@.len() - k,
    {
        let c = items[k];
        assert(has_record(world@, items@[k as int]));
        match find_record(world, c) {
            Some(j) => {
                let p = tile_to_point(world[j].tile);
                pts.push(p);
            },
            None => {
                pts.push(Point3 { x: 0, y: 0, z: 0 });
            },
        }
        k = k + 1;
    }
    pts
}

fn apply_update_blueprint(world: &mut Vec<EntityRecord>, item_id: usize)
    requires
        ids_unique(old(world)@),
        can_apply(old(world)@, JobStep::UpdateBlueprint { item_id }, 0, 0),
    ensures
        ids_unique(final(world)@),
        final(world)@ == Seq::new(old(world)@.len(), |k: int| changed(old(world)@, old(world)@[k], JobStep::UpdateBlueprint { item_id })),
{
    let ghost w = world@;
    let ghost st = JobStep::UpdateBlueprint { item_id };
    match find_record(world, item_id) {
        Some(ii) => {
            match world[ii].claimed_by {
                Some(b) => {
                    match find_record(world, b) {
                        Some(bi) => {
                            proof {
                                assert forall|k: int| 0 <= k < w.len() && k != bi implies changed(w, #[trigger] w[k], st) == w[k] by {
                                    assert(w[k].id != w[bi as int].id);
                                }
                            }
                            let ready = match &world[bi].blueprint {
                                Some(bp) => {
                                    let pts = component_points(world, &bp.1);
                                    let p0 = tile_to_point(world[bi].tile);
                                    let rd = blueprint_ready(&p0, &pts);
                                    proof {
                                        let items = bp.1@;
                                        assert(record_of(w, item_id) == w[ii as int]);
                                        assert(forall|k: int| 0 <= k < items.len() ==> #[trigger] items[k] == (w[bi as int].blueprint->0).1@[k]);
                                        if rd {
                                            assert forall|k: int| 0 <= k < (w[bi as int].blueprint->0).1@.len() implies
                                                sq_dist(tile_point(w[bi as int].tile as int), tile_point(record_of(w, #[trigger] (w[bi as int].blueprint->0).1@[k]).tile as int)) <= 1 by {
                                                assert(pts@[k] == tile_point(record_of(w, items[k]).tile as int));
                                            }
                                        } else {
                                            let k = choose|k: int| 0 <= k < pts@.len() && !(sq_dist(p0, #[trigger] pts@[k]) <= 1);
                                            assert(pts@[k] == tile_point(record_of(w, items[k]).tile as int));
                                        }
                                        assert(rd == blueprint_becomes_ready(w, w[bi as int], item_id));
                                    }
                                    rd
                                },
                                None => false,
                            };
                            assert(ready == blueprint_becomes_ready(w, w[bi as int], item_id));
                            if ready {
                                let mut r = world.remove(bi);
                                let bp = r.blueprint.take();
                                match bp {
                                    Some((_, items)) => {
                                        r.blueprint = Some((true, items));
                                    },
                                    None => {},
                                }
                                finish_change(world, bi, r, Ghost(w), Ghost(st));
                            } else {
                                proof { lemma_changed_none(w, st); }
                            }
                        },
                        None => {
                            proof {
                                assert forall|k: int| 0 <= k < w.len() implies changed(w, #[trigger] w[k], st) == w[k] by {
                                    if w[k].id == b {
                                        assert(has_record(w, b));
                                    }
                                }
                                lemma_changed_none(w, st);
                            }
                        },
                    }
                },
                None => {
                    proof { lemma_changed_none(w, st); }
                },
            }
        },
        None => {
            proof { lemma_changed_none(w, st); }
        },
    }
}

/// Whether `v` holds `x`.
fn contains_id(v: &Vec<usize>, x: usize) -> (b: bool)
    ensures
        b == v@.contains(x),
{
    let mut i: usize = 0;
    while i < v.len()
        invariant
            i <= v@.len(),
            forall|j: int| 0 <= j < i ==> v@[j] != x,
        decreases v@.len() - i,
    {
        if v[i] == x {
            return true;
        }
        i = i + 1;
    }
    false
}

fn apply_create_reaction_job(world: &mut Vec<EntityRecord>, workshop_id: usize, components: Vec<usize>, reaction_tag: String, fresh_id: usize)
    requires
        ids_unique(old(world)@),
        has_record(old(world)@, workshop_id),
        !has_record(old(world)@, fresh_id),
    ensures
        ids_unique(final(world)@),
        world_after(old(world)@, final(world)@, JobStep::CreateReactionJob { workshop_id, components, reaction_tag }, fresh_id, 0),
{
    let ghost w = world@;
    let ghost comps = components;
    let ghost tag = reaction_tag;
    let wi = match find_record(world, workshop_id) {
        Some(wi) => wi,
        None => 0,
    };
    let dest = world[wi].tile;
    let mut k: usize = 0;
    while k < world.len()
        invariant
            world@.len() == w.len(),
            k <= w.len(),
            forall|j: int| 0 <= j < k ==> #[trigger] world@[j] == claimed_for(w[j], components@, fresh_id, dest),
            forall|j: int| k <= j < w.len() ==> #[trigger] world@[j] == w[j],
        decreases w.len() - k,
    {
        if contains_id(&components, world[k].id) {
            let mut r = world.remove(k);
            r.claimed_by = Some(fresh_id);
            r.haul = Some((None, dest));
            world.insert(k, r);
        } else {
            assert(world@[k as int] == claimed_for(w[k as int], components@, fresh_id, dest));
        }
        k = k + 1;
    }
    let claim_new = contains_id(&components, fresh_id);
    let ready = components.len() == 0;
    let mut n = EntityRecord {
        id: fresh_id,
        tile: dest,
        carried_by: None,
        job: None,
        claimed_by: None,
        haul: None,
        blueprint: Some((ready, components)),
        reaction: Some((workshop_id, reaction_tag, None)),
        material: None,
        building: None,
        light: None,
        tool: None,
        settler: None,
        tree: None,
        designation: None,
        view_dirty: None,
    };
    if claim_new {
        n.claimed_by = Some(fresh_id);
        n.haul = Some((None, dest));
    }
    let ghost before_push = world@;
    world.push(n);
    proof {
        assert(record_of(w, workshop_id).tile == dest);
        let pushed = w.push(new_reaction_job(fresh_id, dest, workshop_id, tag, comps));
        assert(pushed[w.len() as int] == new_reaction_job(fresh_id, dest, workshop_id, tag, comps));
        assert(world@ =~= Seq::new(pushed.len(), |i: int| claimed_for(pushed[i], comps@, fresh_id, dest)));
        let a = world@;
        assert forall|x: int, y: int| 0 <= x < a.len() && 0 <= y < a.len() && x != y implies #[trigger] a[x].id != #[trigger] a[y].id by {
            if x < w.len() && y < w.len() {
                assert(a[x].id == w[x].id);
                assert(a[y].id == w[y].id);
            } else if x < w.len() {
                assert(a[x].id == w[x].id);
                assert(w[x].id != fresh_id);
            } else {
                assert(a[y].id == w[y].id);
                assert(w[y].id != fresh_id);
            }
        }
    }
}

fn apply_perform_reaction(world: &mut Vec<EntityRecord>, queues: &mut MessageQueues, reaction_id: usize, outputs: Option<&Vec<(String, i32)>>)
    requires
        ids_unique(old(world)@),
        can_apply(old(world)@, JobStep::PerformReaction { reaction_id }, 0, 0),
    ensures
        ids_unique(final(world)@),
        final(world)@ == removed(old(world)@, reaction_id),
        posted(*old(queues), *final(queues), posts(old(world)@, JobStep::PerformReaction { reaction_id },
            match outputs { Some(o) => Some(o@), None => None }, 0)),
{
    let ghost w = world@;
    let ri = match find_record(world, reaction_id) {
        Some(ri) => ri,
        None => 0,
    };
    let first_material: Option<usize> = match &world[ri].blueprint {
        Some(bp) => {
            if bp.1.len() > 0 {
                match find_record(world, bp.1[0]) {
                    Some(mi) => world[mi].material,
                    None => None,
                }
            } else {
                None
            }
        },
        None => None,
    };
    let r = world.remove(ri);
    proof { lemma_unique_remove(w, ri as int); }
    let tile = r.tile;
    match r.blueprint {
        Some(bp) => {
            let m = reaction_material(&bp.1, first_material);
            reaction_performed(queues, &bp.1, m, tile, outputs);
        },
        None => {},
    }
}

/// One spawn request (tile, tag, material) for each of the `qty` items.
fn spawn_list(pos: usize, tag: &String, qty: i32, material: usize) -> (v: Vec<(usize, String, usize)>)
    ensures
        spawn_view(v@) == spawn_requests(Seq::empty(), JobStep::SpawnItem { pos, tag: *tag, qty, material }, 0, 0, Seq::empty(), Seq::empty()),
{
    let mut v: Vec<(usize, String, usize)> = Vec::new();
    let mut c: i32 = 0;
    while c < qty
        invariant
            0 <= c,
            qty > 0 ==> c <= qty,
            qty <= 0 ==> c == 0,
            v@ == Seq::new(c as nat, |i: int| (pos, *tag, material)),
        decreases qty - c,
    {
        v.push((pos, tag.clone(), material));
        c = c + 1;
        assert(v@ =~= Seq::new(c as nat, |i: int| (pos, *tag, material)));
    }
    assert(spawn_view(v@) =~= spawn_requests(Seq::empty(), JobStep::SpawnItem { pos, tag: *tag, qty, material }, 0, 0, Seq::empty(), Seq::empty()));
    v
}

proof fn lemma_chosen_unique(w: Seq<EntityRecord>, usage: ToolType, origin: Point3, c1: int, c2: int)
    requires
        is_chosen_tool(w, usage, origin, c1),
        is_chosen_tool(w, usage, origin, c2),
    ensures
        c1 == c2,
{
    if c1 < c2 {
        assert(free_tool(w[c1], usage));
    } else if c2 < c1 {
        assert(free_tool(w[c2], usage));
    }
}

/// Each record as a candidate tool: of kind `usage` at its point when it is
/// a free tool for `usage`, of the other kind otherwise.
pub open spec fn candidate(r: EntityRecord, usage: ToolType, other: ToolType) -> (Point3, ToolType) {
    if free_tool(r, usage) { (record_point(r), usage) } else { (Point3 { x: 0, y: 0, z: 0 }, other) }
}

fn apply_hire(world: &mut Vec<EntityRecord>, id: usize, miner: bool)
    requires
        ids_unique(old(world)@),
        can_hire(old(world)@, id, miner),
    ensures
        ids_unique(final(world)@),
        hired(old(world)@, final(world)@, id, miner),
{
    let ghost w = world@;
    let usage = if miner { ToolType::Digging } else { ToolType::Chopping };
    let other = if miner { ToolType::Chopping } else { ToolType::Digging };
    let si = match find_record(world, id) {
        Some(si) => si,
        None => {
            return;
        },
    };
    if world[si].settler.is_none() {
        return;
    }
    assert(settler_of(w, id));
    let origin = tile_to_point(world[si].tile);
    let mut cands: Vec<(Point3, ToolType)> = Vec::new();
    let mut k: usize = 0;
    while k < world.len()
        invariant
            world@ == w,
            k <= w.len(),
            cands@.len() == k,
            usage == trade_tool(miner),
            other != usage,
            forall|j: int| 0 <= j < w.len() && free_tool(#[trigger] w[j], trade_tool(miner)) ==> w[j].tile < REGION_TILES_COUNT,
            forall|j: int| 0 <= j < k ==> #[trigger] cands@[j] == candidate(w[j], usage, other),
        decreases w.len() - k,
    {
        let free = match world[k].tool {
            Some(u) => u == usage && world[k].claimed_by.is_none(),
            None => false,
        };
        if free {
            let p = tile_to_point(world[k].tile);
            cands.push((p, usage));
        } else {
            cands.push((Point3 { x: 0, y: 0, z: 0 }, other));
        }
        k = k + 1;
    }
    match find_closest_tool(&cands, usage, &origin) {
        None => {
            proof {
                if exists|c: int| is_chosen_tool(w, usage, origin, c) {
                    let c = choose|c: int| is_chosen_tool(w, usage, origin, c);
                    assert(cands@[c] == candidate(w[c], usage, other));
                }
            }
        },
        Some(c) => {
            proof {
                assert(cands@[c as int] == candidate(w[c as int], usage, other));
                assert forall|j: int| 0 <= j < w.len() && free_tool(#[trigger] w[j], usage)
                    implies sq_dist(origin, record_point(w[c as int])) <= sq_dist(origin, record_point(w[j])) by {
                    assert(cands@[j] == candidate(w[j], usage, other));
                }
                assert forall|j: int| 0 <= j < c && free_tool(#[trigger] w[j], usage)
                    implies sq_dist(origin, record_point(w[c as int])) < sq_dist(origin, record_point(w[j])) by {
                    assert(cands@[j] == candidate(w[j], usage, other));
                }
                assert(is_chosen_tool(w, usage, origin, c as int));
                let cc = choose|c: int| is_chosen_tool(w, usage, origin, c);
                lemma_chosen_unique(w, usage, origin, c as int, cc);
            }
            let mut r = world.remove(c);
            r.claimed_by = Some(id);
            world.insert(c, r);
            let ghost claimed = world@;
            assert(claimed =~= w.update(c as int, EntityRecord { claimed_by: Some(id), ..w[c as int] }));
            let mut st = world.remove(si);
            let sr = st.settler.take();
            match sr {
                Some((m, l)) => {
                    st.settler = Some(if miner { (true, l) } else { (m, true) });
                },
                None => {},
            }
            world.insert(si, st);
            proof {
                assert forall|k: int| 0 <= k < w.len() && k != si implies with_trade(#[trigger] claimed[k], id, miner, true) == claimed[k] by {
                    assert(w[k].id != w[si as int].id);
                }
                assert(world@ =~= Seq::new(w.len(), |k: int| with_trade(claimed[k], id, miner, true)));
                lemma_unique_update(w, c as int, claimed[c as int]);
                lemma_unique_update(claimed, si as int, world@[si as int]);
                assert(world@ =~= claimed.update(si as int, world@[si as int]));
            }
        },
    }
}

fn apply_fire(world: &mut Vec<EntityRecord>, queues: &mut MessageQueues, id: usize, miner: bool)
    requires
        ids_unique(old(world)@),
    ensures
        ids_unique(final(world)@),
        final(world)@ == Seq::new(old(world)@.len(), |k: int| with_trade(old(world)@[k], id, miner, false)),
        posted(*old(queues), *final(queues), drops(claimed_tools(old(world)@, old(world)@), trade_tool(miner), id)),
{
    let ghost w = world@;
    let usage = if miner { ToolType::Digging } else { ToolType::Chopping };
    let mut tools: Vec<ClaimedTool> = Vec::new();
    let mut k: usize = 0;
    while k < world.len()
        invariant
            world@ == w,
            ids_unique(w),
            k <= w.len(),
            tools@ == claimed_tools(w, w.take(k as int)),
        decreases w.len() - k,
    {
        proof {
            assert(w.take(k + 1).drop_last() =~= w.take(k as int));
            assert(w.take(k + 1).last() == w[k as int]);
        }
        match (world[k].tool, world[k].claimed_by) {
            (Some(u), Some(c)) => {
                let location = match world[k].carried_by {
                    Some(b) => match find_record(world, b) {
                        Some(bi) => world[bi].tile,
                        None => world[k].tile,
                    },
                    None => world[k].tile,
                };
                tools.push(ClaimedTool {
                    tool_id: world[k].id,
                    claimed_by: c,
                    usage: u,
                    carried_by: world[k].carried_by,
                    location,
                });
            },
            _ => {},
        }
        k = k + 1;
        proof {
            assert(tools@ =~= claimed_tools(w, w.take(k as int)));
        }
    }
    assert(w.take(w.len() as int) =~= w);
    drop_associated_tool(queues, &tools, usage, id);
    let ghost st = JobStep::FireMiner { id };
    match find_record(world, id) {
        Some(si) => {
            let mut r = world.remove(si);
            let sr = r.settler.take();
            match sr {
                Some((m, l)) => {
                    r.settler = Some(if miner { (false, l) } else { (m, false) });
                },
                None => {},
            }
            world.insert(si, r);
            proof {
                assert forall|k: int| 0 <= k < w.len() && k != si implies with_trade(#[trigger] w[k], id, miner, false) == w[k] by {
                    assert(w[k].id != w[si as int].id);
                }
                assert(world@ =~= Seq::new(w.len(), |k: int| with_trade(w[k], id, miner, false)));
                lemma_unique_update(w, si as int, world@[si as int]);
                assert(world@ =~= w.update(si as int, world@[si as int]));
            }
        },
        None => {
            proof {
                assert forall|k: int| 0 <= k < w.len() implies with_trade(#[trigger] w[k], id, miner, false) == w[k] by {
                    if w[k].id == id {
                        assert(has_record(w, id));
                    }
                }
                assert(world@ =~= Seq::new(w.len(), |k: int| with_trade(w[k], id, miner, false)));
            }
        },
    }
}

fn apply_chop(world: &mut Vec<EntityRecord>, queues: &mut MessageQueues, id: usize, tree_pos: usize, roll: i32, wood_material: usize)
    -> (spawns: Vec<(usize, String, usize)>)
    requires
        ids_unique(old(world)@),
        can_apply(old(world)@, JobStep::TreeChop { id, tree_pos }, 0, roll),
    ensures
        ids_unique(final(world)@),
        world_after(old(world)@, final(world)@, JobStep::TreeChop { id, tree_pos }, 0, roll),
        posted(*old(queues), *final(queues), posts(old(world)@, JobStep::TreeChop { id, tree_pos }, None, roll)),
        spawn_view(spawns@) == spawn_requests(old(world)@, JobStep::TreeChop { id, tree_pos }, roll, wood_material, Seq::empty(), Seq::empty()),
{
    broadcast use vstd::string::group_string_axioms;
    let ghost w = world@;
    let ghost st = JobStep::TreeChop { id, tree_pos };
    proof { lemma_marked_trees(w); }
    let mut spawns: Vec<(usize, String, usize)> = Vec::new();
    let mut tiles: Vec<usize> = Vec::new();
    let mut idx: Vec<usize> = Vec::new();
    let mut k: usize = 0;
    while k < world.len()
        invariant
            world@ == w,
            k <= w.len(),
            idx@.len() == tiles@.len(),
            idx@.len() == marked_trees(w.take(k as int)).len(),
            forall|j: int| 0 <= j < idx@.len() ==> #[trigger] idx@[j] as int == marked_trees(w.take(k as int))[j],
            forall|j: int| 0 <= j < idx@.len() ==> #[trigger] idx@[j] < k,
            forall|j: int| 0 <= j < idx@.len() ==> #[trigger] tiles@[j] == w[idx@[j] as int].tile,
        decreases w.len() - k,
    {
        proof {
            assert(w.take(k + 1).drop_last() =~= w.take(k as int));
            assert(w.take(k + 1).last() == w[k as int]);
        }
        let marked = match world[k].tree {
            Some((c, _)) => c,
            None => false,
        };
        if marked {
            tiles.push(world[k].tile);
            idx.push(k);
        }
        k = k + 1;
    }
    proof {
        assert(w.take(w.len() as int) =~= w);
        assert(tiles@ =~= marked_tiles(w));
        assert forall|j: int| 0 <= j < tiles@.len() implies #[trigger] tiles@[j] < REGION_TILES_COUNT by {
            assert(marked_tree(w[marked_trees(w)[j]]));
        }
    }
    match locate_target(tree_pos, &tiles) {
        None => {
            assert(queues.jobs@ =~= old(queues).jobs@ + posts(w, st, None, roll));
        },
        Some(n) => {
            let t = idx[n];
            assert(chop_target(w, tree_pos) == Some(t as int));
            assert(marked_tree(w[t as int]));
            let mut r = world.remove(t);
            let (c, mut h) = match r.tree {
                Some(tr) => tr,
                None => (false, 0),
            };
            let fell = damage_tree(queues, &mut h, roll);
            if fell {
                let tag = "wood_log".to_string();
                spawns.push((r.tile, tag, wood_material));
                proof {
                    lemma_unique_remove(w, t as int);
                    assert(spawn_view(spawns@) =~= spawn_requests(w, st, roll, wood_material, Seq::empty(), Seq::empty()));
                }
            } else {
                r.tree = Some((c, h));
                world.insert(t, r);
                proof {
                    assert(world@ =~= w.update(t as int, r));
                    lemma_unique_update(w, t as int, r);
                    if roll <= 0 {
                        assert(w.update(t as int, r) =~= w);
                    }
                    assert(queues.jobs@ =~= old(queues).jobs@ + posts(w, st, None, roll));
                    assert(spawn_view(spawns@) =~= spawn_requests(w, st, roll, wood_material, Seq::empty(), Seq::empty()));
                }
            }
        },
    }
    spawns
}

fn apply_dig_at(
    world: &mut Vec<EntityRecord>,
    region: &mut Region,
    queues: &mut MessageQueues,
    id: usize,
    pos: usize,
    roll: i32,
    products: &Vec<Vec<String>>,
) -> (spawns: Vec<(usize, String, usize)>)
    requires
        ids_unique(old(world)@),
        can_dig(old(world)@, *old(region), products@, pos, roll),
    ensures
        ids_unique(final(world)@),
        world_after(old(world)@, final(world)@, JobStep::DigAt { id, pos }, 0, roll),
        posted(*old(queues), *final(queues), posts(old(world)@, JobStep::DigAt { id, pos }, None, roll)),
        final(region).wf(),
        final(region).tile_types@ == match dig_done(old(world)@, JobStep::DigAt { id, pos }, roll) {
            Some((m, mode)) => dug_tiles(old(region).tile_types@, m as int, mode),
            None => old(region).tile_types@,
        },
        final(region).revealed@ == old(region).revealed@,
        final(region).water_level@ == old(region).water_level@,
        final(region).material_idx@ == old(region).material_idx@,
        final(region).constructed@ == old(region).constructed@,
        spawn_view(spawns@) == dig_yield(old(world)@, JobStep::DigAt { id, pos }, roll, old(region).material_idx@, products@),
{
    let ghost w = world@;
    let ghost st = JobStep::DigAt { id, pos };
    let mut spawns: Vec<(usize, String, usize)> = Vec::new();
    let mut des: Vec<(usize, MiningMode)> = Vec::new();
    let mut k: usize = 0;
    while k < world.len()
        invariant
            world@ == w,
            k <= w.len(),
            des@ == designations(w.take(k as int)),
        decreases w.len() - k,
    {
        proof {
            assert(w.take(k + 1).drop_last() =~= w.take(k as int));
            assert(w.take(k + 1).last() == w[k as int]);
        }
        match world[k].designation {
            Some(m) => {
                des.push((world[k].tile, m));
            },
            None => {},
        }
        k = k + 1;
        proof {
            assert(des@ =~= designations(w.take(k as int)));
        }
    }
    proof {
        assert(w.take(w.len() as int) =~= w);
    }
    let target = pick_dig_target(&des, pos);
    if roll > 0 {
        match target {
            Some((m, mode)) => {
                apply_dig(queues, region, m, mode);
                if mode == MiningMode::Dig {
                    let mat = region.material_idx[m];
                    let names = &products[mat];
                    let mut n: usize = 0;
                    while n < names.len()
                        invariant
                            n <= names@.len(),
                            spawn_view(spawns@) == Seq::new(n as nat, |q: int| (m, names@[q]@, mat)),
                        decreases names@.len() - n,
                    {
                        let ghost before = spawns@;
                        let nm = names[n].clone();
                        assert(nm == names@[n as int]);
                        spawns.push((m, nm, mat));
                        assert(spawns@ == before.push((m, nm, mat)));
                        assert(spawn_view(spawns@) =~= spawn_view(before).push((m, nm@, mat)));
                        n = n + 1;
                        assert(spawn_view(spawns@) =~= Seq::new(n as nat, |q: int| (m, names@[q]@, mat)));
                    }
                    assert(spawn_view(spawns@) =~= dig_yield(w, st, roll, old(region).material_idx@, products@));
                } else {
                    assert(spawn_view(spawns@) =~= dig_yield(w, st, roll, old(region).material_idx@, products@));
                }
                let ghost mut j: int = 0;
                let mut i: usize = 0;
                while i < world.len()
                    invariant
                        0 <= j <= w.len(),
                        world@ == undesignated(w.take(j), m) + w.skip(j),
                        i == undesignated(w.take(j), m).len(),
                    decreases world@.len() - i,
                {
                    proof {
                        assert(w.take(j + 1).drop_last() =~= w.take(j));
                        assert(w.take(j + 1).last() == w[j]);
                        assert(world@[i as int] == w.skip(j)[0]);
                        assert(w.skip(j + 1) =~= w.skip(j).drop_first());
                    }
                    let at = world[i].designation.is_some() && world[i].tile == m;
                    if at {
                        world.remove(i);
                    } else {
                        i = i + 1;
                    }
                    proof {
                        j = j + 1;
                        assert(world@ =~= undesignated(w.take(j), m) + w.skip(j));
                    }
                }
                proof {
                    assert(w.take(j) =~= w);
                    assert(world@ =~= undesignated(w, m));
                    lemma_undesignated_unique(w, m);
                }
                let ghost u = world@;
                let mut v: usize = 0;
                while v < world.len()
                    invariant
                        ids_unique(u),
                        world@.len() == u.len(),
                        v <= u.len(),
                        forall|q: int| 0 <= q < v ==> #[trigger] world@[q] == view_invalidated(u[q]),
                        forall|q: int| v <= q < u.len() ==> #[trigger] world@[q] == u[q],
                    decreases u.len() - v,
                {
                    if world[v].view_dirty.is_some() {
                        let mut r = world.remove(v);
                        r.view_dirty = Some(true);
                        world.insert(v, r);
                    }
                    v = v + 1;
                }
                proof {
                    assert(world@ =~= Seq::new(u.len(), |k: int| view_invalidated(u[k])));
                    let a = world@;
                    assert forall|x: int, y: int| 0 <= x < a.len() && 0 <= y < a.len() && x != y implies #[trigger] a[x].id != #[trigger] a[y].id by {
                        assert(a[x].id == u[x].id && a[y].id == u[y].id);
                    }
                }
            },
            None => {
                assert(queues.jobs@ =~= old(queues).jobs@ + posts(w, st, None, roll));
            },
        }
    } else {
        assert(queues.jobs@ =~= old(queues).jobs@ + posts(w, st, None, roll));
    }
    spawns
}

/// Cancelling a job leaves the entity it names, when that entity has a job,
/// with no job at all; every other entity is unchanged.
pub proof fn lemma_cancel_clears_job(w: Seq<EntityRecord>, a: Seq<EntityRecord>, id: usize, fresh_id: usize, roll: i32)
    requires
        world_after(w, a, JobStep::JobCancelled { id }, fresh_id, roll),
    ensures
        a.len() == w.len(),
        forall|i: int| 0 <= i < w.len() && w[i].id == id && w[i].job is Some
            ==> (#[trigger] a[i]).job == Some(JobType::NoJob) && a[i].id == id,
        forall|i: int| 0 <= i < w.len() && w[i].id != id ==> #[trigger] a[i] == w[i],
{
}

/// Concluding a job leaves the entity it names, when that entity has a job,
/// with no job, and changing a job gives it the new job; every other entity
/// is unchanged by either.
pub proof fn lemma_job_messages_set_job(w: Seq<EntityRecord>, a: Seq<EntityRecord>, step: JobStep, fresh_id: usize, roll: i32)
    requires
        world_after(w, a, step, fresh_id, roll),
        step is JobConcluded || step is JobChanged,
    ensures
        a.len() == w.len(),
        step matches JobStep::JobConcluded { id } ==> forall|i: int| 0 <= i < w.len() && w[i].id == id && w[i].job is Some
            ==> (#[trigger] a[i]).job == Some(JobType::NoJob),
        step matches JobStep::JobChanged { id, new_job } ==> forall|i: int| 0 <= i < w.len() && w[i].id == id && w[i].job is Some
            ==> (#[trigger] a[i]).job == Some(new_job),
        step matches JobStep::JobConcluded { id } ==> forall|i: int| 0 <= i < w.len() && w[i].id != id ==> #[trigger] a[i] == w[i],
        step matches JobStep::JobChanged { id, .. } ==> forall|i: int| 0 <= i < w.len() && w[i].id != id ==> #[trigger] a[i] == w[i],
{
}

proof fn lemma_no_marked_tree(w: Seq<EntityRecord>)
    requires
        forall|k: int| 0 <= k < w.len() ==> !((#[trigger] w[k]).tree is Some && (w[k].tree->0).0),
    ensures
        marked_trees(w).len() == 0,
{
    lemma_marked_trees(w);
    if marked_trees(w).len() > 0 {
        let t = marked_trees(w)[0];
        assert(marked_tree(w[t]));
    }
}

/// A blow at a tree only ever damages or fells a tree marked for cutting:
/// every entity that is not a marked tree is still in the world, unchanged,
/// and when no tree is marked nothing changes at all.
pub proof fn lemma_chop_only_marked(w: Seq<EntityRecord>, a: Seq<EntityRecord>, id: usize, pos: usize, fresh_id: usize, roll: i32)
    requires
        world_after(w, a, JobStep::TreeChop { id, tree_pos: pos }, fresh_id, roll),
    ensures
        (forall|k: int| 0 <= k < w.len() ==> !((#[trigger] w[k]).tree is Some && (w[k].tree->0).0)) ==> a == w,
        forall|k: int| 0 <= k < w.len() && !((#[trigger] w[k]).tree is Some && (w[k].tree->0).0) ==> a.contains(w[k]),
{
    if forall|k: int| 0 <= k < w.len() ==> !((#[trigger] w[k]).tree is Some && (w[k].tree->0).0) {
        lemma_no_marked_tree(w);
    }
    match chop_target(w, pos) {
        None => {
            assert forall|k: int| 0 <= k < w.len() && !((#[trigger] w[k]).tree is Some && (w[k].tree->0).0) implies a.contains(w[k]) by {
                assert(a[k] == w[k]);
            }
        },
        Some(t) => {
            let m = marked_trees(w);
            lemma_marked_trees(w);
            assert(marked_tiles(w).len() == m.len());
            lemma_nearest_exists(tile_point(pos as int), tile_points(marked_tiles(w)));
            let j = nearest_index(tile_point(pos as int), tile_points(marked_tiles(w)));
            assert(t == m[j]);
            assert(marked_tree(w[t]));
            assert forall|k: int| 0 <= k < w.len() && !((#[trigger] w[k]).tree is Some && (w[k].tree->0).0) implies a.contains(w[k]) by {
                assert(k != t);
                if felled(w, pos, roll) {
                    if k < t {
                        assert(a[k] == w[k]);
                    } else {
                        assert(a[k - 1] == w[k]);
                    }
                } else {
                    assert(a[k] == w[k]);
                }
            }
        },
    }
}

proof fn lemma_chosen_exists(w: Seq<EntityRecord>, usage: ToolType, origin: Point3)
    requires
        exists|j: int| 0 <= j < w.len() && free_tool(#[trigger] w[j], usage),
    ensures
        exists|c: int| is_chosen_tool(w, usage, origin, c),
    decreases w.len(),
{
    let d = w.drop_last();
    let last = w.len() - 1;
    if exists|j: int| 0 <= j < d.len() && free_tool(#[trigger] d[j], usage) {
        lemma_chosen_exists(d, usage, origin);
        let c0 = choose|c: int| is_chosen_tool(d, usage, origin, c);
        assert(w[c0] == d[c0]);
        if free_tool(w[last], usage) && sq_dist(origin, record_point(w[last])) < sq_dist(origin, record_point(w[c0])) {
            assert forall|j: int| 0 <= j < w.len() && free_tool(#[trigger] w[j], usage)
                implies sq_dist(origin, record_point(w[last])) <= sq_dist(origin, record_point(w[j])) by {
                if j < last {
                    assert(w[j] == d[j]);
                }
            }
            assert forall|j: int| 0 <= j < last && free_tool(#[trigger] w[j], usage)
                implies sq_dist(origin, record_point(w[last])) < sq_dist(origin, record_point(w[j])) by {
                assert(w[j] == d[j]);
            }
            assert(is_chosen_tool(w, usage, origin, last));
        } else {
            assert forall|j: int| 0 <= j < w.len() && free_tool(#[trigger] w[j], usage)
                implies sq_dist(origin, record_point(w[c0])) <= sq_dist(origin, record_point(w[j])) by {
                if j < last {
                    assert(w[j] == d[j]);
                }
            }
            assert forall|j: int| 0 <= j < c0 && free_tool(#[trigger] w[j], usage)
                implies sq_dist(origin, record_point(w[c0])) < sq_dist(origin, record_point(w[j])) by {
                assert(w[j] == d[j]);
            }
            assert(is_chosen_tool(w, usage, origin, c0));
        }
    } else {
        let j0 = choose|j: int| 0 <= j < w.len() && free_tool(#[trigger] w[j], usage);
        if j0 < last {
            assert(d[j0] == w[j0]);
        }
        assert forall|j: int| 0 <= j < last && free_tool(#[trigger] w[j], usage) implies false by {
            assert(d[j] == w[j]);
        }
        assert(is_chosen_tool(w, usage, origin, last));
    }
}

/// Taking up a trade touches only that trade's flag of the settler: after
/// `BecomeMiner` the settler is a miner or unchanged, its lumberjack flag
/// as before; after `BecomeLumberjack` it is a lumberjack or unchanged, its
/// miner flag as before. When a free tool of the trade is left anywhere, the
/// settler does take the trade.
pub proof fn lemma_hire_sets_its_trade(w: Seq<EntityRecord>, a: Seq<EntityRecord>, id: usize, fresh_id: usize, roll: i32,
    s: int, miner_flag: bool, lumber_flag: bool)
    requires
        ids_unique(w),
        0 <= s < w.len(),
        w[s].id == id,
        w[s].settler == Some((miner_flag, lumber_flag)),
    ensures
        world_after(w, a, JobStep::BecomeMiner { id }, fresh_id, roll) ==> a.len() == w.len()
            && (a[s].settler == Some((true, lumber_flag)) || a[s].settler == Some((miner_flag, lumber_flag))),
        world_after(w, a, JobStep::BecomeLumberjack { id }, fresh_id, roll) ==> a.len() == w.len()
            && (a[s].settler == Some((miner_flag, true)) || a[s].settler == Some((miner_flag, lumber_flag))),
        world_after(w, a, JobStep::BecomeMiner { id }, fresh_id, roll)
            && (exists|k: int| 0 <= k < w.len() && (#[trigger] w[k]).tool == Some(ToolType::Digging) && w[k].claimed_by is None)
            ==> a[s].settler == Some((true, lumber_flag)),
        world_after(w, a, JobStep::BecomeLumberjack { id }, fresh_id, roll)
            && (exists|k: int| 0 <= k < w.len() && (#[trigger] w[k]).tool == Some(ToolType::Chopping) && w[k].claimed_by is None)
            ==> a[s].settler == Some((miner_flag, true)),
{
    lemma_index_of(w, id, s);
    assert(settler_of(w, id));
    let origin = record_point(record_of(w, id));
    if exists|k: int| 0 <= k < w.len() && (#[trigger] w[k]).tool == Some(ToolType::Digging) && w[k].claimed_by is None {
        let k = choose|k: int| 0 <= k < w.len() && (#[trigger] w[k]).tool == Some(ToolType::Digging) && w[k].claimed_by is None;
        assert(free_tool(w[k], ToolType::Digging));
        lemma_chosen_exists(w, ToolType::Digging, origin);
    }
    if exists|k: int| 0 <= k < w.len() && (#[trigger] w[k]).tool == Some(ToolType::Chopping) && w[k].claimed_by is None {
        let k = choose|k: int| 0 <= k < w.len() && (#[trigger] w[k]).tool == Some(ToolType::Chopping) && w[k].claimed_by is None;
        assert(free_tool(w[k], ToolType::Chopping));
        lemma_chosen_exists(w, ToolType::Chopping, origin);
    }
    if exists|c: int| is_chosen_tool(w, ToolType::Digging, origin, c) {
        let c = choose|c: int| is_chosen_tool(w, ToolType::Digging, origin, c);
        let claimed = w.update(c, EntityRecord { claimed_by: Some(id), ..w[c] });
        assert(claimed[s].settler == w[s].settler && claimed[s].id == id);
    }
    if exists|c: int| is_chosen_tool(w, ToolType::Chopping, origin, c) {
        let c = choose|c: int| is_chosen_tool(w, ToolType::Chopping, origin, c);
        let claimed = w.update(c, EntityRecord { claimed_by: Some(id), ..w[c] });
        assert(claimed[s].settler == w[s].settler && claimed[s].id == id);
    }
}

proof fn lemma_marked_listed(w: Seq<EntityRecord>, k: int)
    requires
        0 <= k < w.len(),
        w[k].tree is Some && (w[k].tree->0).0,
    ensures
        exists|i: int| 0 <= i < marked_trees(w).len() && marked_trees(w)[i] == k,
    decreases w.len(),
{
    let d = w.drop_last();
    if k == w.len() - 1 {
        assert(w.last() == w[k]);
        assert(marked_trees(w)[marked_trees(d).len() as int] == k);
    } else {
        assert(d[k] == w[k]);
        lemma_marked_listed(d, k);
        let i = choose|i: int| 0 <= i < marked_trees(d).len() && marked_trees(d)[i] == k;
        assert(marked_trees(w)[i] == marked_trees(d)[i]);
    }
}

/// A successful blow (a roll above zero) hits the marked tree nearest to the
/// lumberjack's tile: its health drops by the roll, and it is removed from
/// the world when that leaves it with less than 1; nothing else changes. A
/// failed blow changes nothing.
pub proof fn lemma_chop_hits_nearest_marked(w: Seq<EntityRecord>, a: Seq<EntityRecord>, id: usize, pos: usize,
    fresh_id: usize, roll: i32)
    requires
        world_after(w, a, JobStep::TreeChop { id, tree_pos: pos }, fresh_id, roll),
    ensures
        roll <= 0 ==> a == w,
        roll > 0 && (exists|k: int| 0 <= k < w.len() && (#[trigger] w[k]).tree is Some && (w[k].tree->0).0)
            ==> exists|t: int| {
                &&& 0 <= t < w.len()
                &&& (#[trigger] w[t]).tree is Some && (w[t].tree->0).0
                &&& forall|k: int| 0 <= k < w.len() && (#[trigger] w[k]).tree is Some && (w[k].tree->0).0
                    ==> sq_dist(tile_point(pos as int), tile_point(w[t].tile as int))
                        <= sq_dist(tile_point(pos as int), tile_point(w[k].tile as int))
                &&& if (w[t].tree->0).1 - roll < 1 {
                    a == w.remove(t)
                } else {
                    a == w.update(t, EntityRecord { tree: Some((true, ((w[t].tree->0).1 - roll) as i32)), ..w[t] })
                }
            },
{
    if roll > 0 && (exists|k: int| 0 <= k < w.len() && (#[trigger] w[k]).tree is Some && (w[k].tree->0).0) {
        let k0 = choose|k: int| 0 <= k < w.len() && (#[trigger] w[k]).tree is Some && (w[k].tree->0).0;
        lemma_marked_listed(w, k0);
        lemma_marked_trees(w);
        let m = marked_trees(w);
        let pts = tile_points(marked_tiles(w));
        let origin = tile_point(pos as int);
        lemma_nearest_exists(origin, pts);
        let j = nearest_index(origin, pts);
        let t = m[j];
        assert(chop_target(w, pos) == Some(t));
        assert(marked_tree(w[t]));
        assert forall|k: int| 0 <= k < w.len() && (#[trigger] w[k]).tree is Some && (w[k].tree->0).0
            implies sq_dist(origin, tile_point(w[t].tile as int)) <= sq_dist(origin, tile_point(w[k].tile as int)) by {
            lemma_marked_listed(w, k);
            let i = choose|i: int| 0 <= i < m.len() && m[i] == k;
            assert(pts[i] == tile_point(w[k].tile as int));
            assert(pts[j] == tile_point(w[t].tile as int));
        }
        assert(health_after(w, pos, roll) == (w[t].tree->0).1 - roll);
    }
}

/// Taking up a trade, when a free tool of it is left, claims the free tool
/// of that kind nearest to the settler for the settler and makes the
/// settler take the trade; nothing else changes. With no free tool of the
/// kind, nothing changes at all.
pub proof fn lemma_hire_claims_nearest_tool(w: Seq<EntityRecord>, a: Seq<EntityRecord>, step: JobStep, id: usize,
    fresh_id: usize, roll: i32, s: int)
    requires
        step == (JobStep::BecomeMiner { id }) || step == (JobStep::BecomeLumberjack { id }),
        world_after(w, a, step, fresh_id, roll),
        ids_unique(w),
        0 <= s < w.len(),
        w[s].id == id,
        w[s].settler is Some,
    ensures
        ({
            let kind = if step is BecomeMiner { ToolType::Digging } else { ToolType::Chopping };
            &&& (forall|k: int| 0 <= k < w.len() ==> !((#[trigger] w[k]).tool == Some(kind) && w[k].claimed_by is None))
                ==> a == w
            &&& (exists|k: int| 0 <= k < w.len() && (#[trigger] w[k]).tool == Some(kind) && w[k].claimed_by is None)
                ==> exists|c: int| {
                    &&& 0 <= c < w.len()
                    &&& (#[trigger] w[c]).tool == Some(kind) && w[c].claimed_by is None
                    &&& forall|k: int| 0 <= k < w.len() && (#[trigger] w[k]).tool == Some(kind) && w[k].claimed_by is None
                        ==> sq_dist(tile_point(w[s].tile as int), tile_point(w[c].tile as int))
                            <= sq_dist(tile_point(w[s].tile as int), tile_point(w[k].tile as int))
                    &&& a.len() == w.len()
                    &&& a[c].claimed_by == Some(id)
                    &&& a[c].tool == w[c].tool
                    &&& forall|k: int| 0 <= k < w.len() && k != c && k != s ==> #[trigger] a[k] == w[k]
                }
        }),
{
    let miner = step is BecomeMiner;
    let kind = if miner { ToolType::Digging } else { ToolType::Chopping };
    assert(kind == trade_tool(miner));
    lemma_index_of(w, id, s);
    assert(settler_of(w, id));
    let origin = record_point(record_of(w, id));
    assert(hired(w, a, id, miner));
    if exists|k: int| 0 <= k < w.len() && (#[trigger] w[k]).tool == Some(kind) && w[k].claimed_by is None {
        let k = choose|k: int| 0 <= k < w.len() && (#[trigger] w[k]).tool == Some(kind) && w[k].claimed_by is None;
        assert(free_tool(w[k], kind));
        lemma_chosen_exists(w, kind, origin);
        let c = choose|c: int| is_chosen_tool(w, kind, origin, c);
        let claimed = w.update(c, EntityRecord { claimed_by: Some(id), ..w[c] });
        assert(a == Seq::new(w.len(), |k: int| with_trade(claimed[k], id, miner, true)));
        assert forall|k: int| 0 <= k < w.len() && (#[trigger] w[k]).tool == Some(kind) && w[k].claimed_by is None
            implies sq_dist(tile_point(w[s].tile as int), tile_point(w[c].tile as int))
                <= sq_dist(tile_point(w[s].tile as int), tile_point(w[k].tile as int)) by {
            assert(free_tool(w[k], kind));
        }
        assert(a[c].claimed_by == Some(id) && a[c].tool == w[c].tool);
        assert forall|k: int| 0 <= k < w.len() && k != c && k != s implies #[trigger] a[k] == w[k] by {
            assert(claimed[k] == w[k]);
            assert(w[k].id != w[s].id);
        }
    } else {
        if exists|c: int| is_chosen_tool(w, kind, origin, c) {
            let c = choose|c: int| is_chosen_tool(w, kind, origin, c);
            assert(free_tool(w[c], kind));
        }
    }
}

/// Applies `step` to the world: the records it names change, or are
/// removed, or (for a new reaction job) one is added under `fresh_id`; a dig
/// changes the region's tiles; the messages it leads to are posted, in
/// order; a move or a step along a path records where the entity goes.
/// Returns the items that `step` asks to be spawned, one entry per item.
///
/// What comes from outside the world is handed in: `skill_roll` is the
/// worker's skill check for a dig or a blow at a tree (a success when above
/// zero), `reaction_outputs` the products of the reaction performed (when
/// that reaction is known), `wood_material` the material of felled wood,
/// and `mined_products` what each material yields when mined. Messages
/// that name no entity change nothing here.
pub fn apply(
    world: &mut Vec<EntityRecord>,
    region: &mut Region,
    queues: &mut MessageQueues,
    step: JobStep,
    fresh_id: usize,
    skill_roll: i32,
    reaction_outputs: Option<&Vec<(String, i32)>>,
    wood_material: usize,
    mined_products: &Vec<Vec<String>>,
) -> (spawns: Vec<(usize, String, usize)>)
    requires
        ids_unique(old(world)@),
        can_apply(old(world)@, step, fresh_id, skill_roll),
        step matches JobStep::DigAt { pos, .. } ==> can_dig(old(world)@, *old(region), mined_products@, pos, skill_roll),
    ensures
        applied(old(world)@, final(world)@, *old(queues), *final(queues), step, fresh_id,
            match reaction_outputs { Some(o) => Some(o@), None => None }, skill_roll),
        final(region).tile_types@ == match dig_done(old(world)@, step, skill_roll) {
            Some((m, mode)) => dug_tiles(old(region).tile_types@, m as int, mode),
            None => old(region).tile_types@,
        },
        final(region).revealed@ == old(region).revealed@,
        final(region).water_level@ == old(region).water_level@,
        final(region).material_idx@ == old(region).material_idx@,
        final(region).constructed@ == old(region).constructed@,
        spawn_view(spawns@) == spawn_requests(old(world)@, step, skill_roll, wood_material,
            old(region).material_idx@, mined_products@),
{
    let ghost w = world@;
    let ghost st = step;
    let mut spawns: Vec<(usize, String, usize)> = Vec::new();
    match step {
        JobStep::EntityMoved { id, end } => {
            queues.movers.insert(id, (end.x as usize, end.y as usize, end.z as usize));
            proof { lemma_changed_none(w, st); }
        },
        JobStep::JobChanged { id, new_job } => {
            apply_job_changed(world, id, new_job);
        },
        JobStep::JobCancelled { id } => {
            apply_job_cancelled(world, id);
        },
        JobStep::JobConcluded { id } => {
            apply_job_concluded(world, queues, id);
        },
        JobStep::FollowJobPath { id } => {
            apply_follow_path(world, queues, id);
        },
        JobStep::DropItem { id, location } => {
            apply_carry(world, queues, Ghost(st), id, None, location);
        },
        JobStep::GetItem { id, item_id } => {
            apply_carry(world, queues, Ghost(st), item_id, Some(id), 0);
        },
        JobStep::EquipItem { id, tool_id } => {
            apply_carry(world, queues, Ghost(st), tool_id, Some(id), 0);
        },
        JobStep::DeleteItem { id } => {
            apply_delete(world, id);
            vox_moved(queues);
        },
        JobStep::DeleteBuilding { building_id } => {
            apply_delete(world, building_id);
            vox_moved(queues);
            lights_changed(queues);
            assert(queues.jobs@ =~= old(queues).jobs@ + posts(w, st, None, 0));
        },
        JobStep::FinishBuilding { building_id } => {
            apply_finish_building(world, queues, building_id);
        },
        JobStep::SpawnItem { pos, tag, qty, material } => {
            spawns = spawn_list(pos, &tag, qty, material);
            proof { lemma_changed_none(w, st); }
        },
        JobStep::HaulInProgress { id, by } => {
            apply_haul_in_progress(world, id, by);
        },
        JobStep::ReactionInProgress { id, by } => {
            apply_reaction_in_progress(world, id, by);
        },
        JobStep::RemoveHaulTag { id } => {
            apply_remove_haul_tag(world, id);
        },
        JobStep::UpdateBlueprint { item_id } => {
            apply_update_blueprint(world, item_id);
        },
        JobStep::CreateReactionJob { workshop_id, components, reaction_tag } => {
            apply_create_reaction_job(world, workshop_id, components, reaction_tag, fresh_id);
        },
        JobStep::PerformReaction { reaction_id } => {
            apply_perform_reaction(world, queues, reaction_id, reaction_outputs);
        },
        JobStep::TreeChop { id, tree_pos } => {
            spawns = apply_chop(world, queues, id, tree_pos, skill_roll, wood_material);
        },
        JobStep::DigAt { id, pos } => {
            spawns = apply_dig_at(world, region, queues, id, pos, skill_roll, mined_products);
        },
        JobStep::BecomeMiner { id } => {
            apply_hire(world, id, true);
        },
        JobStep::BecomeLumberjack { id } => {
            apply_hire(world, id, false);
        },
        JobStep::FireMiner { id } => {
            apply_fire(world, queues, id, true);
        },
        JobStep::FireLumberjack { id } => {
            apply_fire(world, queues, id, false);
        },
        _ => {
            proof { lemma_changed_none(w, st); }
        },
    }
    proof {
        if posts(w, st, match reaction_outputs { Some(o) => Some(o@), None => None }, skill_roll) == Seq::<JobStep>::empty() {
            assert(old(queues).jobs@ + Seq::<JobStep>::empty() =~= old(queues).jobs@);
        }
    }
    spawns
}

} // verus!
