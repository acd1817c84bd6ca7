//! Which terrain texture each material uses: the de-duplicated list of
//! texture names to load, and each material's four texture slots as indices
//! into that list.

use vstd::prelude::*;

verus! {

/// The texture names a material declares for each way it can be drawn.
pub struct TextureBase {
    pub base: Option<String>,
    pub constructed: Option<String>,
    pub floor: Option<String>,
    pub floor_constructed: Option<String>,
}

/// A material's texture names, as read from the raw files.
pub struct MaterialTextures {
    pub texture: Option<TextureBase>,
}

/// Material `id` with the names of its four textures.
pub struct MaterialTextureNames {
    pub id: usize,
    pub base: Option<String>,
    pub constructed: Option<String>,
    pub floor: Option<String>,
    pub floor_constructed: Option<String>,
}

/// Material `id` with the positions of its four textures in the texture
/// list; `None` where the material declares no texture.
#[derive(Clone, Copy, Debug)]
pub struct TextureMap {
    pub id: usize,
    pub base: Option<usize>,
    pub constructed: Option<usize>,
    pub floor: Option<usize>,
    pub floor_constructed: Option<usize>,
}

/// The text of an optional name.
pub open spec fn name_view(n: Option<String>) -> Option<Seq<char>> {
    match n {
        Some(s) => Some(s@),
        None => None,
    }
}

/// The four names of a material, in slot order.
pub open spec fn declared_names(m: MaterialTextures) -> Seq<Option<Seq<char>>> {
    match m.texture {
        Some(t) => seq![name_view(t.base), name_view(t.constructed), name_view(t.floor), name_view(t.floor_constructed)],
        None => seq![None, None, None, None],
    }
}

/// The four names of an entry of the material list, in slot order.
pub open spec fn entry_names(e: MaterialTextureNames) -> Seq<Option<Seq<char>>> {
    seq![name_view(e.base), name_view(e.constructed), name_view(e.floor), name_view(e.floor_constructed)]
}

/// The texts of a list of names.
pub open spec fn texts(list: Seq<String>) -> Seq<Seq<char>> {
    Seq::new(list.len(), |i: int| list[i]@)
}

/// No text occurs twice in `list`.
pub open spec fn no_duplicates(list: Seq<String>) -> bool {
    forall|i: int, j: int| 0 <= i < j < list.len() ==> list[i]@ != list[j]@
}

/// Text `t` is the text of one of `list`.
pub open spec fn has_text(list: Seq<String>, t: Seq<char>) -> bool {
    exists|i: int| 0 <= i < list.len() && list[i]@ == t
}

fn clone_name(n: &Option<String>) -> (c: Option<String>)
    ensures
        c == *n,
{
    match n {
        Some(s) => Some(s.clone()),
        None => None,
    }
}

fn position_in(list: &Vec<String>, name: &String) -> (r: Option<usize>)
    ensures
        r matches Some(i) ==> i < list@.len() && list@[i as int]@ == name@
            && forall|j: int| 0 <= j < i ==> list@[j]@ != name@,
        r is None ==> !has_text(list@, name@),
{
    let mut i: usize = 0;
    while i < list.len()
        invariant
            i <= list@.len(),
            forall|j: int| 0 <= j < i ==> list@[j]@ != name@,
        decreases list@.len() - i,
    {
        if list[i] == *name {
            return Some(i);
        }
        i = i + 1;
    }
    None
}

fn insert_name(texture_set: &mut Vec<String>, name: &Option<String>)
    requires
        no_duplicates(old(texture_set)@),
    ensures
        no_duplicates(final(texture_set)@),
        forall|t: Seq<char>| has_text(final(texture_set)@, t) <==> (has_text(old(texture_set)@, t) || name_view(*name) == Some(t)),
{
    match name {
        Some(n) => {
            match position_in(texture_set, n) {
                Some(_) => {},
                None => {
                    texture_set.push(n.clone());
                    assert forall|t: Seq<char>| has_text(texture_set@, t) <==> (has_text(old(texture_set)@, t) || name_view(*name) == Some(t)) by {
                        if has_text(old(texture_set)@, t) {
                            let i = choose|i: int| 0 <= i < old(texture_set)@.len() && old(texture_set)@[i]@ == t;
                            assert(texture_set@[i] == old(texture_set)@[i]);
                        }
                        if name_view(*name) == Some(t) {
                            assert(texture_set@[old(texture_set)@.len() as int]@ == t);
                        }
                        if has_text(texture_set@, t) {
                            let i = choose|i: int| 0 <= i < texture_set@.len() && texture_set@[i]@ == t;
                            if i < old(texture_set)@.len() {
                                assert(old(texture_set)@[i] == texture_set@[i]);
                            }
                        }
                    }
                },
            }
        },
        None => {},
    }
}

/// Lists each material with the names of its four textures, and adds every
/// name used to `texture_set`, which never holds a name twice.
pub fn build_material_list(materials: &Vec<MaterialTextures>, texture_set: &mut Vec<String>) -> (list: Vec<MaterialTextureNames>)
    requires
        no_duplicates(old(texture_set)@),
    ensures
        no_duplicates(final(texture_set)@),
        list@.len() == materials@.len(),
        forall|i: int| 0 <= i < list@.len() ==> {
            &&& (#[trigger] list@[i]).id == i
            &&& entry_names(list@[i]) == declared_names(materials@[i])
        },
        forall|t: Seq<char>| has_text(final(texture_set)@, t) <==> (has_text(old(texture_set)@, t)
            || exists|i: int, k: int| 0 <= i < materials@.len() && 0 <= k < 4 && #[trigger] declared_names(materials@[i])[k] == Some(t)),
{
    let mut list: Vec<MaterialTextureNames> = Vec::new();
    let mut i: usize = 0;
    while i < materials.len()
        invariant
            i <= materials@.len(),
            no_duplicates(texture_set@),
            list@.len() == i,
            forall|j: int| 0 <= j < i ==> {
                &&& (#[trigger] list@[j]).id == j
                &&& entry_names(list@[j]) == declared_names(materials@[j])
            },
            forall|t: Seq<char>| has_text(texture_set@, t) <==> (has_text(old(texture_set)@, t)
                || exists|j: int, k: int| 0 <= j < i && 0 <= k < 4 && #[trigger] declared_names(materials@[j])[k] == Some(t)),
        decreases materials@.len() - i,
    {
        let mut entry = MaterialTextureNames { id: i, base: None, constructed: None, floor: None, floor_constructed: None };
        let ghost before = texture_set@;
        match &materials[i].texture {
            Some(tb) => {
                insert_name(texture_set, &tb.base);
                entry.base = clone_name(&tb.base);
                insert_name(texture_set, &tb.constructed);
                entry.constructed = clone_name(&tb.constructed);
                insert_name(texture_set, &tb.floor);
                entry.floor = clone_name(&tb.floor);
                insert_name(texture_set, &tb.floor_constructed);
                entry.floor_constructed = clone_name(&tb.floor_constructed);
            },
            None => {},
        }
        assert(entry_names(entry) =~= declared_names(materials@[i as int]));
        proof {
            let m = materials@[i as int];
            assert forall|t: Seq<char>| has_text(texture_set@, t) <==> (has_text(old(texture_set)@, t)
                || exists|j: int, k: int| 0 <= j < i + 1 && 0 <= k < 4 && #[trigger] declared_names(materials@[j])[k] == Some(t)) by {
                assert(has_text(texture_set@, t) <==> (has_text(before, t) || exists|k: int| 0 <= k < 4 && declared_names(m)[k] == Some(t)));
                if exists|k: int| 0 <= k < 4 && declared_names(m)[k] == Some(t) {
                    let k = choose|k: int| 0 <= k < 4 && declared_names(m)[k] == Some(t);
                    assert(declared_names(materials@[i as int])[k] == Some(t));
                }
                if exists|j: int, k: int| 0 <= j < i + 1 && 0 <= k < 4 && #[trigger] declared_names(materials@[j])[k] == Some(t) {
                    let (j, k) = choose|j: int, k: int| 0 <= j < i + 1 && 0 <= k < 4 && #[trigger] declared_names(materials@[j])[k] == Some(t);
                    if j < i {
                        assert(exists|j: int, k: int| 0 <= j < i && 0 <= k < 4 && #[trigger] declared_names(materials@[j])[k] == Some(t));
                    }
                }
            }
        }
        list.push(entry);
        i = i + 1;
    }
    list
}

/// Position of the name `n` in `texture_list`: the first entry with its
/// text; `None` for no name.
pub open spec fn slot_of(texture_list: Seq<String>, n: Option<Seq<char>>, r: Option<usize>) -> bool {
    match n {
        None => r is None,
        Some(t) => match r {
            Some(i) => i < texture_list.len() && texture_list[i as int]@ == t
                && forall|j: int| 0 <= j < i ==> texture_list[j]@ != t,
            None => false,
        },
    }
}

fn slot(texture_list: &Vec<String>, name: &Option<String>) -> (r: Option<usize>)
    requires
        name_view(*name) matches Some(t) ==> has_text(texture_list@, t),
    ensures
        slot_of(texture_list@, name_view(*name), r),
{
    match name {
        Some(n) => position_in(texture_list, n),
        None => None,
    }
}

/// Each material of the list with the positions of its textures in
/// `texture_list` (the first entry of the same name); every name must be
/// in the list.
pub fn build_texture_list(material_list: &Vec<MaterialTextureNames>, texture_list: &Vec<String>) -> (maps: Vec<TextureMap>)
    requires
        forall|i: int, k: int| 0 <= i < material_list@.len() && 0 <= k < 4
            ==> (#[trigger] entry_names(material_list@[i])[k] matches Some(t) ==> has_text(texture_list@, t)),
    ensures
        maps@.len() == material_list@.len(),
        forall|i: int| 0 <= i < maps@.len() ==> {
            let m = #[trigger] maps@[i];
            let e = material_list@[i];
            &&& m.id == e.id
            &&& slot_of(texture_list@, name_view(e.base), m.base)
            &&& slot_of(texture_list@, name_view(e.constructed), m.constructed)
            &&& slot_of(texture_list@, name_view(e.floor), m.floor)
            &&& slot_of(texture_list@, name_view(e.floor_constructed), m.floor_constructed)
        },
{
    let mut maps: Vec<TextureMap> = Vec::new();
    let mut i: usize = 0;
    while i < material_list.len()
        invariant
            i <= material_list@.len(),
            forall|i: int, k: int| 0 <= i < material_list@.len() && 0 <= k < 4
                ==> (#[trigger] entry_names(material_list@[i])[k] matches Some(t) ==> has_text(texture_list@, t)),
            maps@.len() == i,
            forall|j: int| 0 <= j < i ==> {
                let m = #[trigger] maps@[j];
                let e = material_list@[j];
                &&& m.id == e.id
                &&& slot_of(texture_list@, name_view(e.base), m.base)
                &&& slot_of(texture_list@, name_view(e.constructed), m.constructed)
                &&& slot_of(texture_list@, name_view(e.floor), m.floor)
                &&& slot_of(texture_list@, name_view(e.floor_constructed), m.floor_constructed)
            },
        decreases material_list@.len() - i,
    {
        let e = &material_list[i];
        proof {
            let names = entry_names(material_list@[i as int]);
            assert(names[0] == name_view(e.base));
            assert(names[1] == name_view(e.constructed));
            assert(names[2] == name_view(e.floor));
            assert(names[3] == name_view(e.floor_constructed));
        }
        let m = TextureMap {
            id: e.id,
            base: slot(texture_list, &e.base),
            constructed: slot(texture_list, &e.constructed),
            floor: slot(texture_list, &e.floor),
            floor_constructed: slot(texture_list, &e.floor_constructed),
        };
        maps.push(m);
        i = i + 1;
    }
    maps
}

} // verus!
