//! Layout of the terrain texture atlas: a grid of `ATLAS_COLS x ATLAS_COLS`
//! square slots, with each material using three consecutive slots (albedo,
//! normal, and packed occlusion/roughness/metal), at eight mip levels.

use vstd::prelude::*;

verus! {

/// Side of one texture at full resolution, in pixels.
pub const TEXTURE_SIZE: usize = 256;

/// Slots per atlas row (and rows per atlas).
pub const ATLAS_COLS: usize = 16;

/// Atlas width in pixels at full resolution.
pub const ATLAS_W: u32 = 4096;

/// Atlas height in pixels at full resolution.
pub const ATLAS_H: u32 = 4096;

/// Number of mip levels built.
pub const MIP_LEVELS: usize = 8;

/// Side of one texture at mip level `mip`.
pub open spec fn spec_mip_size(mip: int) -> int
    decreases mip,
{
    if mip <= 0 { 256 } else { spec_mip_size(mip - 1) / 2 }
}

/// Top-left pixel of atlas slot `slot` when textures are `tex_size` wide.
pub open spec fn spec_slot_origin(slot: int, tex_size: int) -> (int, int) {
    ((slot % 16) * tex_size, (slot / 16) * tex_size)
}

/// Side of a texture at mip level `mip` (each level halves the previous).
pub fn mip_size(mip: usize) -> (s: usize)
    requires
        mip < MIP_LEVELS,
    ensures
        s == spec_mip_size(mip as int),
        s >= 2,
{
    let mut s: usize = TEXTURE_SIZE;
    let mut i: usize = 0;
    while i < mip
        invariant
            i <= mip < 8,
            s == spec_mip_size(i as int),
        decreases mip - i,
    {
        s = s / 2;
        i = i + 1;
    }
    proof {
        lemma_mip_size_min(mip as int);
    }
    s
}

proof fn lemma_mip_size_min(mip: int)
    requires
        0 <= mip < 8,
    ensures
        spec_mip_size(mip) >= 2,
        spec_mip_size(mip) <= 256,
    decreases mip,
{
    reveal_with_fuel(spec_mip_size, 9);
}

/// The top-left pixel of atlas slot `slot` at texture size `tex_size`:
/// slots fill each row of `ATLAS_COLS` left to right, rows top to bottom.
pub fn slot_origin(slot: usize, tex_size: usize) -> (xy: (usize, usize))
    requires
        (slot % 16) * tex_size <= usize::MAX,
        (slot / 16) * tex_size <= usize::MAX,
    ensures
        xy.0 == spec_slot_origin(slot as int, tex_size as int).0,
        xy.1 == spec_slot_origin(slot as int, tex_size as int).1,
{
    ((slot % ATLAS_COLS) * tex_size, (slot / ATLAS_COLS) * tex_size)
}

/// The three atlas slots of the material at position `i` in the texture
/// map: albedo, normal, and packed occlusion/roughness/metal.
pub fn material_slots(i: usize) -> (slots: (usize, usize, usize))
    requires
        i * 3 + 2 <= usize::MAX,
    ensures
        slots == ((i * 3) as usize, (i * 3 + 1) as usize, (i * 3 + 2) as usize),
{
    (i * 3, i * 3 + 1, i * 3 + 2)
}

/// One pixel of the packed texture: occlusion in red, roughness in green,
/// metal in blue, fully opaque.
pub fn pack_pixel(ao: u8, rough: u8, metal: u8) -> (p: [u8; 4])
    ensures
        p@ == seq![ao, rough, metal, 255u8],
{
    let p = [ao, rough, metal, 255];
    assert(p@ =~= seq![ao, rough, metal, 255u8]);
    p
}

/// Distinct slots of the atlas never overlap, and every slot lies inside
/// the atlas at its mip level: slot `a` covers the square of side
/// `tex_size` at its origin, and so does slot `b`.
pub proof fn lemma_slots_disjoint(a: int, b: int, tex_size: int, px: int, py: int)
    requires
        0 <= a < 256,
        0 <= b < 256,
        a != b,
        tex_size > 0,
        spec_slot_origin(a, tex_size).0 <= px < spec_slot_origin(a, tex_size).0 + tex_size,
        spec_slot_origin(a, tex_size).1 <= py < spec_slot_origin(a, tex_size).1 + tex_size,
    ensures
        !(spec_slot_origin(b, tex_size).0 <= px < spec_slot_origin(b, tex_size).0 + tex_size
            && spec_slot_origin(b, tex_size).1 <= py < spec_slot_origin(b, tex_size).1 + tex_size),
        0 <= px < 16 * tex_size,
        0 <= py < 16 * tex_size,
{
    let (ax, ay) = (a % 16, a / 16);
    let (bx, by) = (b % 16, b / 16);
    assert(0 <= ax < 16 && 0 <= ay < 16 && 0 <= bx < 16 && 0 <= by < 16);
    assert(a == ay * 16 + ax && b == by * 16 + bx);
    if spec_slot_origin(b, tex_size).0 <= px < spec_slot_origin(b, tex_size).0 + tex_size
        && spec_slot_origin(b, tex_size).1 <= py < spec_slot_origin(b, tex_size).1 + tex_size {
        assert(ax == bx) by (nonlinear_arith)
            requires
                ax * tex_size <= px < ax * tex_size + tex_size,
                bx * tex_size <= px < bx * tex_size + tex_size,
                tex_size > 0;
        assert(ay == by) by (nonlinear_arith)
            requires
                ay * tex_size <= py < ay * tex_size + tex_size,
                by * tex_size <= py < by * tex_size + tex_size,
                tex_size > 0;
    }
    assert(0 <= px < 16 * tex_size) by (nonlinear_arith)
        requires
            ax * tex_size <= px < ax * tex_size + tex_size,
            0 <= ax < 16,
            tex_size > 0;
    assert(0 <= py < 16 * tex_size) by (nonlinear_arith)
        requires
            ay * tex_size <= py < ay * tex_size + tex_size,
            0 <= ay < 16,
            tex_size > 0;
}

/// `s` with every occurrence of `pat`, read left to right and without
/// overlaps, removed.
pub open spec fn remove_all(s: Seq<char>, pat: Seq<char>) -> Seq<char>
    decreases s.len(),
{
    if s.len() == 0 || pat.len() == 0 {
        s
    } else if pat.len() <= s.len() && s.take(pat.len() as int) == pat {
        remove_all(s.skip(pat.len() as int), pat)
    } else {
        seq![s[0]] + remove_all(s.skip(1), pat)
    }
}

/// The name of the material that a texture file belongs to: its path
/// without the terrain directory and without the map-kind suffixes
/// (occlusion, normal, roughness, metal, albedo).
pub open spec fn stub_name(path: Seq<char>) -> Seq<char> {
    remove_all(remove_all(remove_all(remove_all(remove_all(remove_all(path,
        "resources/terrain/"@), "-ao.jpg"@), "-n.jpg"@), "-r.jpg"@), "-m.jpg"@), "-t.jpg"@)
}

/// `s` ends with ".jpg".
pub open spec fn is_jpg(s: Seq<char>) -> bool {
    s.len() >= 4 && s.skip(s.len() - 4) == ".jpg"@
}

/// The texture map of the sorted texture files `names`: each material name,
/// in order of first appearance, with the position of its first file.
pub open spec fn texture_map(names: Seq<Seq<char>>) -> Seq<(Seq<char>, usize)>
    decreases names.len(),
{
    if names.len() == 0 {
        Seq::empty()
    } else {
        let m = texture_map(names.drop_last());
        let n = stub_name(names.last());
        if exists|j: int| 0 <= j < m.len() && #[trigger] m[j].0 == n {
            m
        } else {
            m.push((n, (names.len() - 1) as usize))
        }
    }
}

/// The characters of `s`.
fn chars_of(s: &str) -> (v: Vec<char>)
    ensures
        v@ == s@,
{
    let n = s.unicode_len();
    let mut v: Vec<char> = Vec::new();
    let mut i: usize = 0;
    while i < n
        invariant
            n == s@.len(),
            i <= n,
            v@ == s@.take(i as int),
        decreases n - i,
    {
        v.push(s.get_char(i));
        i = i + 1;
        assert(v@ =~= s@.take(i as int));
    }
    assert(s@.take(n as int) =~= s@);
    v
}

/// Whether `pat` occurs in `s` at position `i`.
fn occurs_at(s: &Vec<char>, i: usize, pat: &Vec<char>) -> (b: bool)
    requires
        i <= s@.len(),
    ensures
        b == (pat@.len() <= s@.len() - i && s@.skip(i as int).take(pat@.len() as int) == pat@),
{
    let n = s.len();
    if pat.len() > n - i {
        return false;
    }
    let mut k: usize = 0;
    while k < pat.len()
        invariant
            n == s@.len(),
            i <= s@.len(),
            pat@.len() <= s@.len() - i,
            k <= pat@.len(),
            forall|q: int| 0 <= q < k ==> s@[i + q] == pat@[q],
        decreases pat@.len() - k,
    {
        assert(i + k < s@.len());
        if s[i + k] != pat[k] {
            assert(s@.skip(i as int).take(pat@.len() as int)[k as int] != pat@[k as int]);
            return false;
        }
        k = k + 1;
    }
    assert(s@.skip(i as int).take(pat@.len() as int) =~= pat@);
    true
}

/// `s` with every occurrence of `pat` removed.
fn remove_all_of(s: &Vec<char>, pat: &Vec<char>) -> (r: Vec<char>)
    requires
        pat@.len() > 0,
    ensures
        r@ == remove_all(s@, pat@),
{
    let mut out: Vec<char> = Vec::new();
    let mut i: usize = 0;
    assert(s@.skip(0) =~= s@);
    assert(out@ + remove_all(s@, pat@) =~= remove_all(s@, pat@));
    while i < s.len()
        invariant
            pat@.len() > 0,
            i <= s@.len(),
            out@ + remove_all(s@.skip(i as int), pat@) == remove_all(s@, pat@),
        decreases s@.len() - i,
    {
        let ghost rest = s@.skip(i as int);
        if occurs_at(s, i, pat) {
            assert(rest.skip(pat@.len() as int) =~= s@.skip(i + pat@.len()));
            i = i + pat.len();
        } else {
            assert(rest.skip(1) =~= s@.skip(i + 1));
            assert(out@.push(s@[i as int]) + remove_all(s@.skip(i + 1), pat@)
                =~= out@ + (seq![rest[0]] + remove_all(rest.skip(1), pat@)));
            out.push(s[i]);
            i = i + 1;
        }
    }
    assert(s@.skip(i as int) =~= Seq::<char>::empty());
    assert(out@ + remove_all(s@.skip(i as int), pat@) =~= out@);
    out
}

/// The material name of texture file `path`.
fn stub_of(path: &Vec<char>) -> (r: Vec<char>)
    ensures
        r@ == stub_name(path@),
{
    proof {
        reveal_strlit("resources/terrain/");
        reveal_strlit("-ao.jpg");
        reveal_strlit("-n.jpg");
        reveal_strlit("-r.jpg");
        reveal_strlit("-m.jpg");
        reveal_strlit("-t.jpg");
    }
    let a = remove_all_of(path, &chars_of("resources/terrain/"));
    let b = remove_all_of(&a, &chars_of("-ao.jpg"));
    let c = remove_all_of(&b, &chars_of("-n.jpg"));
    let d = remove_all_of(&c, &chars_of("-r.jpg"));
    let e = remove_all_of(&d, &chars_of("-m.jpg"));
    remove_all_of(&e, &chars_of("-t.jpg"))
}

/// Whether `a` and `b` hold the same characters.
fn same_chars(a: &Vec<char>, b: &Vec<char>) -> (r: bool)
    ensures
        r == (a@ == b@),
{
    if a.len() != b.len() {
        return false;
    }
    let mut k: usize = 0;
    while k < a.len()
        invariant
            a@.len() == b@.len(),
            k <= a@.len(),
            forall|q: int| 0 <= q < k ==> a@[q] == b@[q],
        decreases a@.len() - k,
    {
        if a[k] != b[k] {
            return false;
        }
        k = k + 1;
    }
    assert(a@ =~= b@);
    true
}

/// Whether texture file `path` names its map kind: its material name no
/// longer ends in ".jpg".
pub fn names_map_kind(path: &String) -> (ok: bool)
    ensures
        ok == !is_jpg(stub_name(path@)),
{
    let stub = stub_of(&chars_of(path.as_str()));
    let jpg = chars_of(".jpg");
    proof {
        reveal_strlit(".jpg");
    }
    if stub.len() < 4 {
        return true;
    }
    let start = stub.len() - 4;
    let ends = occurs_at(&stub, start, &jpg);
    proof {
        assert(stub@.skip(start as int).take(4) =~= stub@.skip(start as int));
    }
    !ends
}

/// Builds the texture map of the sorted texture file paths `paths`: each
/// material name, in order of first appearance, with the position of its
/// first file. A name that still ends in ".jpg" has no known map-kind
/// suffix and is refused by `requires`.
pub fn build_texture_map(paths: &Vec<String>) -> (map: Vec<(Vec<char>, usize)>)
    requires
        forall|i: int| 0 <= i < paths@.len() ==> !is_jpg(stub_name(#[trigger] paths@[i]@)),
    ensures
        map@.len() == texture_map(Seq::new(paths@.len(), |i: int| paths@[i]@)).len(),
        forall|i: int| 0 <= i < map@.len() ==> (#[trigger] map@[i]).0@ == texture_map(Seq::new(paths@.len(), |k: int| paths@[k]@))[i].0
            && map@[i].1 == texture_map(Seq::new(paths@.len(), |k: int| paths@[k]@))[i].1,
{
    let ghost names = Seq::new(paths@.len(), |k: int| paths@[k]@);
    let mut map: Vec<(Vec<char>, usize)> = Vec::new();
    let mut i: usize = 0;
    while i < paths.len()
        invariant
            i <= paths@.len(),
            names == Seq::new(paths@.len(), |k: int| paths@[k]@),
            map@.len() == texture_map(names.take(i as int)).len(),
            forall|q: int| 0 <= q < map@.len() ==> (#[trigger] map@[q]).0@ == texture_map(names.take(i as int))[q].0
                && map@[q].1 == texture_map(names.take(i as int))[q].1,
        decreases paths@.len() - i,
    {
        let path = chars_of(paths[i].as_str());
        let stub = stub_of(&path);
        let ghost m = texture_map(names.take(i as int));
        proof {
            assert(names.take(i + 1).drop_last() =~= names.take(i as int));
            assert(names.take(i + 1).last() == names[i as int]);
        }
        let mut j: usize = 0;
        let mut seen = false;
        while j < map.len()
            invariant
                j <= map@.len(),
                map@.len() == m.len(),
                forall|q: int| 0 <= q < map@.len() ==> (#[trigger] map@[q]).0@ == m[q].0,
                seen == exists|q: int| 0 <= q < j && #[trigger] m[q].0 == stub@,
            decreases map@.len() - j,
        {
            if same_chars(&map[j].0, &stub) {
                seen = true;
            }
            j = j + 1;
        }
        if !seen {
            map.push((stub, i));
            proof {
                assert forall|q: int| 0 <= q < map@.len() implies (#[trigger] map@[q]).0@ == texture_map(names.take(i + 1))[q].0
                    && map@[q].1 == texture_map(names.take(i + 1))[q].1 by {
                    if q < m.len() {
                        
                    }
                }
            }
        }
        i = i + 1;
    }
    proof {
        assert(names.take(i as int) =~= names);
    }
    map
}

} // verus!
