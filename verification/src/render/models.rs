//! Assembling the shared index buffer of all loaded models.

use vstd::prelude::*;

verus! {

/// Where a model's indices start and end in the shared index buffer.
#[derive(Clone, Copy, Debug, PartialEq, Eq, Structural)]
pub struct ModelIndex {
    pub start: u16,
    pub end: u16,
}

/// The indices of one mesh rebased onto the vertices already loaded.
pub open spec fn rebased(mesh_indices: Seq<u32>, index_base: u16) -> Seq<u16> {
    Seq::new(mesh_indices.len(), |i: int| ((mesh_indices[i] as u16) + index_base) as u16)
}

/// Appends one mesh of a model whose indices started at `start`: the mesh's
/// indices, offset by the vertices already loaded, go to the end of the
/// index buffer; the vertex base grows by the mesh's vertex count (a third
/// of its position count); the model's entry ends at the new length of the
/// index buffer.
pub fn append_mesh(
    index_buf: &mut Vec<u16>,
    index_base: &mut u16,
    model_map: &mut Vec<ModelIndex>,
    start: u16,
    mesh_indices: &Vec<u32>,
    n_positions: usize,
)
    requires
        forall|i: int| 0 <= i < mesh_indices@.len() ==> (#[trigger] mesh_indices@[i] as u16) + *old(index_base) <= u16::MAX,
        *old(index_base) + (n_positions as u16) / 3 <= u16::MAX,
    ensures
        final(index_buf)@ == old(index_buf)@ + rebased(mesh_indices@, *old(index_base)),
        *final(index_base) == *old(index_base) + (n_positions as u16) / 3,
        final(model_map)@ == old(model_map)@.push(ModelIndex { start, end: final(index_buf)@.len() as u16 }),
{
    let base = *index_base;
    let ghost before = index_buf@;
    let mut i: usize = 0;
    while i < mesh_indices.len()
        invariant
            i <= mesh_indices@.len(),
            forall|j: int| 0 <= j < mesh_indices@.len() ==> (#[trigger] mesh_indices@[j] as u16) + base <= u16::MAX,
            index_buf@ == before + rebased(mesh_indices@.take(i as int), base),
        decreases mesh_indices@.len() - i,
    {
        let v = mesh_indices[i] as u16;
        assert(v + base <= u16::MAX);
        index_buf.push(v + base);
        i = i + 1;
        assert(rebased(mesh_indices@.take(i as int), base) =~= rebased(mesh_indices@.take(i - 1), base).push(((mesh_indices@[i - 1] as u16) + base) as u16));
        assert(index_buf@ =~= before + rebased(mesh_indices@.take(i as int), base));
    }
    assert(mesh_indices@.take(i as int) =~= mesh_indices@);
    *index_base = base + (n_positions as u16) / 3;
    model_map.push(ModelIndex { start, end: index_buf.len() as u16 });
}

/// What loading has built so far: the index buffer, the vertex base, and
/// the index entries of the meshes loaded.
pub type LoadState = (Seq<u16>, u16, Seq<ModelIndex>);

/// The load state after the meshes `meshes` (indices and position count)
/// of a model whose entries start at `start`.
pub open spec fn add_meshes(s: LoadState, meshes: Seq<(Vec<u32>, usize)>, start: u16) -> LoadState
    decreases meshes.len(),
{
    if meshes.len() == 0 {
        s
    } else {
        let t = add_meshes(s, meshes.drop_last(), start);
        let m = meshes.last();
        let buf = t.0 + rebased(m.0@, t.1);
        (buf, (t.1 + (m.1 as u16) / 3) as u16, t.2.push(ModelIndex { start, end: buf.len() as u16 }))
    }
}

/// The load state after the models `models`, each a list of meshes; a
/// model's entries start at the vertex base reached before it.
pub open spec fn load_state(models: Seq<Vec<(Vec<u32>, usize)>>) -> LoadState
    decreases models.len(),
{
    if models.len() == 0 {
        (Seq::empty(), 0, Seq::empty())
    } else {
        let s = load_state(models.drop_last());
        add_meshes(s, models.last()@, s.1)
    }
}

/// Every mesh's rebased indices and the vertex base after it fit in 16
/// bits.
pub open spec fn meshes_fit(s: LoadState, meshes: Seq<(Vec<u32>, usize)>, start: u16) -> bool
    decreases meshes.len(),
{
    if meshes.len() == 0 {
        true
    } else {
        let t = add_meshes(s, meshes.drop_last(), start);
        let m = meshes.last();
        &&& meshes_fit(s, meshes.drop_last(), start)
        &&& forall|i: int| 0 <= i < m.0@.len() ==> (#[trigger] m.0@[i] as u16) + t.1 <= u16::MAX
        &&& t.1 + (m.1 as u16) / 3 <= u16::MAX
    }
}

/// Every model's meshes fit, loaded in order.
pub open spec fn models_fit(models: Seq<Vec<(Vec<u32>, usize)>>) -> bool
    decreases models.len(),
{
    if models.len() == 0 {
        true
    } else {
        let s = load_state(models.drop_last());
        models_fit(models.drop_last()) && meshes_fit(s, models.last()@, s.1)
    }
}

/// Loads every model's meshes, in order, into one index buffer: returns the
/// buffer and one index entry per mesh.
pub fn load_model_indices(models: &Vec<Vec<(Vec<u32>, usize)>>) -> (r: (Vec<u16>, Vec<ModelIndex>))
    requires
        models_fit(models@),
    ensures
        r.0@ == load_state(models@).0,
        r.1@ == load_state(models@).2,
{
    let mut index_buf: Vec<u16> = Vec::new();
    let mut model_map: Vec<ModelIndex> = Vec::new();
    let mut index_base: u16 = 0;
    let mut mi: usize = 0;
    while mi < models.len()
        invariant
            mi <= models@.len(),
            models_fit(models@),
            (index_buf@, index_base, model_map@) == load_state(models@.take(mi as int)),
        decreases models@.len() - mi,
    {
        let meshes = &models[mi];
        let ghost s = load_state(models@.take(mi as int));
        proof {
            assert(models@.take(mi + 1).drop_last() =~= models@.take(mi as int));
            assert(models@.take(mi + 1).last() == models@[mi as int]);
            lemma_models_fit_prefix(models@, mi + 1);
        }
        let start = index_base;
        let mut j: usize = 0;
        while j < meshes.len()
            invariant
                j <= meshes@.len(),
                meshes_fit(s, meshes@, start),
                start == s.1,
                (index_buf@, index_base, model_map@) == add_meshes(s, meshes@.take(j as int), start),
            decreases meshes@.len() - j,
        {
            proof {
                assert(meshes@.take(j + 1).drop_last() =~= meshes@.take(j as int));
                assert(meshes@.take(j + 1).last() == meshes@[j as int]);
                lemma_meshes_fit_prefix(s, meshes@, start, j + 1);
            }
            let (idx, n) = (&meshes[j].0, meshes[j].1);
            append_mesh(&mut index_buf, &mut index_base, &mut model_map, start, idx, n);
            j = j + 1;
        }
        proof {
            assert(meshes@.take(j as int) =~= meshes@);
        }
        mi = mi + 1;
    }
    proof {
        assert(models@.take(mi as int) =~= models@);
    }
    (index_buf, model_map)
}

proof fn lemma_meshes_fit_prefix(s: LoadState, meshes: Seq<(Vec<u32>, usize)>, start: u16, k: int)
    requires
        0 <= k <= meshes.len(),
        meshes_fit(s, meshes, start),
    ensures
        meshes_fit(s, meshes.take(k), start),
    decreases meshes.len() - k,
{
    if k < meshes.len() {
        lemma_meshes_fit_prefix(s, meshes, start, k + 1);
        assert(meshes.take(k + 1).drop_last() =~= meshes.take(k));
    } else {
        assert(meshes.take(k) =~= meshes);
    }
}

proof fn lemma_models_fit_prefix(models: Seq<Vec<(Vec<u32>, usize)>>, k: int)
    requires
        0 <= k <= models.len(),
        models_fit(models),
    ensures
        models_fit(models.take(k)),
    decreases models.len() - k,
{
    if k < models.len() {
        lemma_models_fit_prefix(models, k + 1);
        assert(models.take(k + 1).drop_last() =~= models.take(k));
    } else {
        assert(models.take(k) =~= models);
    }
}

} // verus!
