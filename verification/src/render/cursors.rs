//! Which boxes the design cursors highlight: trees marked for cutting,
//! mining designations and the mouse brush, and construction sites.

use vstd::prelude::*;
use crate::components::{MiningMode, Point3};
use crate::spatial::{idxmap, spec_idxmap};

verus! {

/// A highlighted box: its corner and its extent along x, y and z.
#[derive(Clone, Copy, Debug, PartialEq, Eq, Structural)]
pub struct CursorBox {
    pub x: i64,
    pub y: i64,
    pub z: i64,
    pub w: i64,
    pub h: i64,
    pub d: i64,
}

/// The box of size `(w, h, d)` at point `p`.
pub open spec fn point_box(p: Point3, w: i64, h: i64, d: i64) -> CursorBox {
    CursorBox { x: p.x as i64, y: p.y as i64, z: p.z as i64, w, h, d }
}

/// The unit box on tile `idx`.
pub open spec fn tile_box(idx: usize) -> CursorBox {
    CursorBox {
        x: spec_idxmap(idx as int).0 as i64,
        y: spec_idxmap(idx as int).1 as i64,
        z: spec_idxmap(idx as int).2 as i64,
        w: 1,
        h: 1,
        d: 1,
    }
}

fn boxes_at(points: &Vec<Point3>, w: i64, h: i64, d: i64) -> (boxes: Vec<CursorBox>)
    ensures
        boxes@ == Seq::new(points@.len(), |i: int| point_box(points@[i], w, h, d)),
{
    let mut boxes: Vec<CursorBox> = Vec::new();
    let mut i: usize = 0;
    while i < points.len()
        invariant
            i <= points@.len(),
            boxes@ == Seq::new(i as nat, |j: int| point_box(points@[j], w, h, d)),
        decreases points@.len() - i,
    {
        let p = points[i];
        boxes.push(CursorBox { x: p.x as i64, y: p.y as i64, z: p.z as i64, w, h, d });
        i = i + 1;
        assert(boxes@ =~= Seq::new(i as nat, |j: int| point_box(points@[j], w, h, d)));
    }
    boxes
}

/// Lumberjack design view: a box one tile wide and two high on each tree
/// marked for cutting.
pub fn lumberjack_cursors(marked_trees: &Vec<Point3>) -> (boxes: Vec<CursorBox>)
    ensures
        boxes@ == Seq::new(marked_trees@.len(), |i: int| point_box(marked_trees@[i], 1, 1, 2)),
{
    boxes_at(marked_trees, 1, 1, 2)
}

/// Construction design view: a unit box on each construction site.
pub fn construction_cursors(sites: &Vec<Point3>) -> (boxes: Vec<CursorBox>)
    ensures
        boxes@ == Seq::new(sites@.len(), |i: int| point_box(sites@[i], 1, 1, 1)),
{
    boxes_at(sites, 1, 1, 1)
}

/// The box under the mouse in mining design view, if the designation there
/// is valid: digging shows the whole brush, other modes a single tile.
pub open spec fn mouse_box(mode: MiningMode, mouse: (usize, usize, usize), brush: (usize, usize)) -> CursorBox {
    let (w, h) = if mode == MiningMode::Dig { (brush.0 as i64, brush.1 as i64) } else { (1i64, 1i64) };
    CursorBox { x: mouse.0 as i64, y: mouse.1 as i64, z: mouse.2 as i64, w, h, d: 1 }
}

/// Mining design view: a unit box on each designated tile, then, when the
/// designation under the mouse is valid, the mouse box.
pub fn mining_cursors(
    designations: &Vec<usize>,
    mode: MiningMode,
    mouse: (usize, usize, usize),
    mouse_valid: bool,
    brush: (usize, usize),
) -> (boxes: Vec<CursorBox>)
    requires
        mouse.0 <= i64::MAX && mouse.1 <= i64::MAX && mouse.2 <= i64::MAX,
        brush.0 <= i64::MAX && brush.1 <= i64::MAX,
    ensures
        boxes@ == Seq::new(designations@.len(), |i: int| tile_box(designations@[i]))
            + if mouse_valid { seq![mouse_box(mode, mouse, brush)] } else { Seq::empty() },
{
    let mut boxes: Vec<CursorBox> = Vec::new();
    let mut i: usize = 0;
    while i < designations.len()
        invariant
            i <= designations@.len(),
            boxes@ == Seq::new(i as nat, |j: int| tile_box(designations@[j])),
        decreases designations@.len() - i,
    {
        let (x, y, z) = idxmap(designations[i]);
        proof {
            crate::spatial::lemma_mapidx_idxmap(designations@[i as int] as int);
            assert(z <= designations@[i as int]) by (nonlinear_arith)
                requires z == designations@[i as int] / 65536;
        }
        boxes.push(CursorBox { x: x as i64, y: y as i64, z: z as i64, w: 1, h: 1, d: 1 });
        i = i + 1;
        assert(boxes@ =~= Seq::new(i as nat, |j: int| tile_box(designations@[j])));
    }
    let ghost marks = boxes@;
    if mouse_valid {
        let (w, h) = match mode {
            MiningMode::Dig => (brush.0 as i64, brush.1 as i64),
            _ => (1i64, 1i64),
        };
        boxes.push(CursorBox { x: mouse.0 as i64, y: mouse.1 as i64, z: mouse.2 as i64, w, h, d: 1 });
        assert(boxes@ =~= marks + seq![mouse_box(mode, mouse, brush)]);
    } else {
        assert(boxes@ =~= marks + Seq::<CursorBox>::empty());
    }
    boxes
}

} // verus!
