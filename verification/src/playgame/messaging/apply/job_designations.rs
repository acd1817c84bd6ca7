//! Hiring and firing miners and lumberjacks: claiming the nearest free tool
//! of the right kind, and dropping the tools a settler carries.

use vstd::prelude::*;
use crate::components::{Point3, ToolType};
use crate::distance::{sq_dist, distance_squared};
use crate::playgame::messaging::{MessageQueues, posted, drop_item};
use crate::playgame::messaging::job_step::JobStep;

verus! {

/// `tools[i]` is a first nearest tool of kind `usage` to `position`.
pub open spec fn is_closest_tool(position: Point3, tools: Seq<(Point3, ToolType)>, usage: ToolType, i: int) -> bool {
    &&& 0 <= i < tools.len()
    &&& tools[i].1 == usage
    &&& forall|j: int| 0 <= j < tools.len() && (#[trigger] tools[j]).1 == usage
        ==> sq_dist(position, tools[i].0) <= sq_dist(position, tools[j].0)
    &&& forall|j: int| 0 <= j < i && (#[trigger] tools[j]).1 == usage
        ==> sq_dist(position, tools[i].0) < sq_dist(position, tools[j].0)
}

/// Among the unclaimed tools (their positions and kinds), the index of the
/// first of the nearest of kind `usage` to `position`; `None` if there is no
/// tool of that kind.
pub fn find_closest_tool(tools: &Vec<(Point3, ToolType)>, usage: ToolType, position: &Point3) -> (r: Option<usize>)
    ensures
        r is None <==> forall|j: int| 0 <= j < tools@.len() ==> (#[trigger] tools@[j]).1 != usage,
        r matches Some(i) ==> is_closest_tool(*position, tools@, usage, i as int),
{
    let mut best: Option<(usize, i128)> = None;
    let mut i: usize = 0;
    while i < tools.len()
        invariant
            i <= tools@.len(),
            best is None <==> forall|j: int| 0 <= j < i ==> (#[trigger] tools@[j]).1 != usage,
            best matches Some((b, d)) ==> {
                &&& b < i
                &&& tools@[b as int].1 == usage
                &&& d == sq_dist(*position, tools@[b as int].0)
                &&& forall|j: int| 0 <= j < i && (#[trigger] tools@[j]).1 == usage ==> d <= sq_dist(*position, tools@[j].0)
                &&& forall|j: int| 0 <= j < b && (#[trigger] tools@[j]).1 == usage ==> d < sq_dist(*position, tools@[j].0)
            },
        decreases tools@.len() - i,
    {
        if tools[i].1 == usage {
            let d = distance_squared(position, &tools[i].0);
            match best {
                None => {
                    best = Some((i, d));
                },
                Some((_, bd)) => {
                    if d < bd {
                        best = Some((i, d));
                    }
                },
            }
        }
        i = i + 1;
    }
    match best {
        None => None,
        Some((b, _)) => Some(b),
    }
}

/// A tool as the firing logic sees it: its id, who claimed it, its kind,
/// who carries it (if anyone), and the tile where it effectively is.
#[derive(Clone, Copy, Debug)]
pub struct ClaimedTool {
    pub tool_id: usize,
    pub claimed_by: usize,
    pub usage: ToolType,
    pub carried_by: Option<usize>,
    pub location: usize,
}

/// The tool is one that settler `id` claimed, of kind `usage`, and carries.
pub open spec fn dropped_by(t: ClaimedTool, usage: ToolType, id: usize) -> bool {
    t.claimed_by == id && t.usage == usage && t.carried_by == Some(id)
}

/// The drop messages for the tools among `tools` that `id` claimed, of kind
/// `usage`, and carries, in order.
pub open spec fn drops(tools: Seq<ClaimedTool>, usage: ToolType, id: usize) -> Seq<JobStep>
    decreases tools.len(),
{
    if tools.len() == 0 {
        Seq::empty()
    } else {
        let t = tools.last();
        drops(tools.drop_last(), usage, id) + if dropped_by(t, usage, id) {
            seq![JobStep::DropItem { id: t.tool_id, location: t.location }]
        } else {
            Seq::empty()
        }
    }
}

/// A settler leaves a trade: each tool of kind `usage` that it claimed and
/// carries is dropped where it is.
pub fn drop_associated_tool(queues: &mut MessageQueues, tools: &Vec<ClaimedTool>, usage: ToolType, id: usize)
    ensures
        posted(*old(queues), *final(queues), drops(tools@, usage, id)),
{
    let mut i: usize = 0;
    while i < tools.len()
        invariant
            i <= tools@.len(),
            posted(*old(queues), *queues, drops(tools@.take(i as int), usage, id)),
        decreases tools@.len() - i,
    {
        let t = tools[i];
        let carried = match t.carried_by {
            Some(by) => by == id,
            None => false,
        };
        if t.claimed_by == id && t.usage == usage && carried {
            drop_item(queues, t.tool_id, t.location);
        }
        i = i + 1;
        assert(tools@.take(i as int).drop_last() =~= tools@.take(i - 1));
        assert(queues.jobs@ =~= old(queues).jobs@ + drops(tools@.take(i as int), usage, id));
    }
    assert(tools@.take(i as int) =~= tools@);
}

} // verus!
