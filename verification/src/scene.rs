//! Scene-wide resources: the light-tile cache, loading progress, and the
//! numbering of doors across all the meshes of a scene.

use crate::meshes::IsDoor;
use std::collections::HashMap;
use vstd::prelude::*;
use vstd::std_specs::iter::IteratorSpec;

verus! {

broadcast use vstd::std_specs::hash::group_hash_axioms;

/// The lights that touch one screen tile, as the light-culling shader fills it.
#[derive(Clone, Copy, Debug)]
pub struct CacheLights {
    pub lights_count: u32,
    pub lights_in_tile: [u32; 15],
}

impl CacheLights {
    /// No light in the tile.
    pub open spec fn is_empty(self) -> bool {
        &&& self.lights_count == 0
        &&& forall|i: int| 0 <= i < 15 ==> #[trigger] self.lights_in_tile@[i] == 0
    }
}

impl Default for CacheLights {
    /// No light in the tile.
    fn default() -> (c: Self)
        ensures
            c.is_empty(),
    {
        let c = CacheLights { lights_count: 0, lights_in_tile: [0u32; 15] };
        assert(c.lights_in_tile@.len() == 15);
        c
    }
}

/// The number of 16-by-16-pixel tiles that cover a `width` by `height` screen.
pub open spec fn spec_light_tiles(width: u32, height: u32) -> int {
    ((width + 15) / 16) * ((height + 15) / 16)
}

/// The number of 16-by-16-pixel tiles that cover a `width` by `height` screen.
pub fn light_tiles(width: u32, height: u32) -> (tiles: usize)
    requires
        width <= u32::MAX - 15,
        height <= u32::MAX - 15,
        spec_light_tiles(width, height) <= u32::MAX,
    ensures
        tiles == spec_light_tiles(width, height),
{
    let x_tiles = (width + 15) / 16;
    let y_tiles = (height + 15) / 16;
    (x_tiles * y_tiles) as usize
}

/// The initial contents of the light cache buffer of a `width` by `height`
/// screen: room is made for every tile, and one empty tile is written.
pub fn initial_light_cache(width: u32, height: u32) -> (cache: Vec<CacheLights>)
    requires
        width <= u32::MAX - 15,
        height <= u32::MAX - 15,
        spec_light_tiles(width, height) <= u32::MAX,
    ensures
        cache@.len() == 1,
        cache@[0].is_empty(),
{
    let tiles = light_tiles(width, height);
    let mut cache: Vec<CacheLights> = Vec::with_capacity(tiles);
    cache.push(CacheLights::default());
    cache
}

/// How much the loading bar advances for each of `count` items that share
/// `share` percent of it: the whole percents of `share / count`, at least
/// one (for no item at all, the largest step).
pub open spec fn spec_progress_step(share: u32, count: usize) -> u32 {
    if count == 0 {
        u32::MAX
    } else if (share as int) / (count as int) >= 1 {
        ((share as int) / (count as int)) as u32
    } else {
        1
    }
}

/// How much the loading bar advances for each of `count` items that share
/// `share` percent of it.
pub fn progress_step(share: u32, count: usize) -> (step: u32)
    ensures
        step == spec_progress_step(share, count),
        step >= 1,
{
    if count == 0 {
        return u32::MAX;
    }
    if count > share as usize {
        assert((share as int) / (count as int) == 0) by (nonlinear_arith)
            requires
                0 <= share < count,
        ;
        return 1;
    }
    let per_item = share / (count as u32);
    if per_item >= 1 {
        per_item
    } else {
        1
    }
}

/// The door tags and the doors (by door id) of one mesh of a scene.
pub struct MeshDoors<D> {
    pub primitives: Vec<IsDoor>,
    pub doors: HashMap<u32, D>,
}

/// Some primitive of the tags `p` belongs to a door.
pub open spec fn has_door_primitive(p: Seq<IsDoor>) -> bool {
    exists|i: int| 0 <= i < p.len() && #[trigger] p[i].door
}

/// The first door id of mesh `k` once the doors of all meshes are numbered
/// in one range: the meshes before it that have door primitives pass on the
/// number of their doors.
pub open spec fn door_offset<D>(ms: Seq<MeshDoors<D>>, k: int) -> int
    decreases k,
{
    if k <= 0 {
        0
    } else {
        door_offset(ms, k - 1) + if has_door_primitive(ms[k - 1].primitives@) {
            ms[k - 1].doors@.len() as int
        } else {
            0
        }
    }
}

/// The tags `p` with every door id moved up by `off`.
pub open spec fn shifted_tags(p: Seq<IsDoor>, off: u32) -> Seq<IsDoor> {
    p.map_values(
        |t: IsDoor|
            IsDoor {
                id: match t.id {
                    Some(i) => Some((i + off) as u32),
                    None => None,
                },
                door: t.door,
            },
    )
}

/// The doors `m` with every door id moved up by `off`.
pub open spec fn shifted_doors<D>(m: Map<u32, D>, off: u32) -> Map<u32, D> {
    Map::new(|k: u32| k >= off && m.contains_key((k - off) as u32), |k: u32| m[(k - off) as u32])
}

/// Moving the door ids of mesh `k` by its offset stays within `u32`, and so
/// does the offset of the mesh after it.
pub open spec fn door_ids_fit<D>(ms: Seq<MeshDoors<D>>, k: int) -> bool {
    let off = door_offset(ms, k);
    has_door_primitive(ms[k].primitives@) ==> {
        &&& off + ms[k].doors@.len() <= u32::MAX
        &&& forall|i: int|
            0 <= i < ms[k].primitives@.len() && (#[trigger] ms[k].primitives@[i]).id is Some ==> off
                + ms[k].primitives@[i].id->0 <= u32::MAX
        &&& forall|d: u32| #[trigger] ms[k].doors@.contains_key(d) ==> off + d <= u32::MAX
    }
}

fn has_door(p: &Vec<IsDoor>) -> (r: bool)
    ensures
        r == has_door_primitive(p@),
{
    let n = p.len();
    let mut i: usize = 0;
    while i < n
        invariant
            n == p@.len(),
            i <= n,
            forall|k: int| 0 <= k < i ==> !(#[trigger] p@[k]).door,
        decreases n - i,
    {
        if p[i].door {
            return true;
        }
        i = i + 1;
    }
    false
}

fn shift_tags(p: &mut Vec<IsDoor>, off: u32)
    requires
        forall|i: int|
            0 <= i < old(p)@.len() && (#[trigger] old(p)@[i]).id is Some ==> off + old(p)@[i].id->0
                <= u32::MAX,
    ensures
        final(p)@ == shifted_tags(old(p)@, off),
{
    let n = p.len();
    let mut i: usize = 0;
    while i < n
        invariant
            n == old(p)@.len(),
            p@.len() == n,
            i <= n,
            forall|k: int|
                0 <= k < n && (#[trigger] old(p)@[k]).id is Some ==> off + old(p)@[k].id->0 <= u32::MAX,
            forall|k: int| 0 <= k < i ==> #[trigger] p@[k] == shifted_tags(old(p)@, off)[k],
            forall|k: int| i <= k < n ==> #[trigger] p@[k] == old(p)@[k],
        decreases n - i,
    {
        let t = p[i];
        let id = match t.id {
            Some(v) => Some(v + off),
            None => None,
        };
        p.set(i, IsDoor { id, door: t.door });
        i = i + 1;
    }
    assert(p@ =~= shifted_tags(old(p)@, off));
}

fn door_keys<D>(m: &HashMap<u32, D>) -> (keys: Vec<u32>)
    ensures
        keys@.to_set() == m@.dom(),
        keys@.no_duplicates(),
{
    let mut keys: Vec<u32> = Vec::new();
    let ghost all = vstd::std_specs::hash::spec_keys_iter(m).remaining();
    for k in it: m.keys()
        invariant
            it.seq() == all,
            keys@ == it.seq().take(it.index() as int).map_values(|r: &u32| *r),
    {
        keys.push(*k);
    }
    assert(keys@ == all.map_values(|r: &u32| *r));
    assert(all.unref() == all.map_values(|r: &u32| *r));
    keys
}

fn shift_doors<D>(doors: HashMap<u32, D>, off: u32) -> (moved: HashMap<u32, D>)
    requires
        forall|d: u32| #[trigger] doors@.contains_key(d) ==> off + d <= u32::MAX,
    ensures
        moved@ == shifted_doors(doors@, off),
{
    let ghost orig = doors@;
    let keys = door_keys(&doors);
    let mut rest = doors;
    let mut moved: HashMap<u32, D> = HashMap::new();
    let n = keys.len();
    let mut j: usize = 0;
    while j < n
        invariant
            n == keys@.len(),
            j <= n,
            keys@.to_set() == orig.dom(),
            keys@.no_duplicates(),
            forall|d: u32| #[trigger] orig.contains_key(d) ==> off + d <= u32::MAX,
            forall|d: u32|
                #[trigger] rest@.contains_key(d) <==> orig.contains_key(d) && !keys@.take(
                    j as int,
                ).contains(d),
            forall|d: u32| #[trigger] rest@.contains_key(d) ==> rest@[d] == orig[d],
            forall|d: u32|
                #[trigger] moved@.contains_key(d) <==> d >= off && keys@.take(j as int).contains(
                    (d - off) as u32,
                ),
            forall|d: u32| #[trigger] moved@.contains_key(d) ==> moved@[d] == orig[(d - off) as u32],
        decreases n - j,
    {
        let key = keys[j];
        assert(keys@.to_set().contains(key));
        assert(!keys@.take(j as int).contains(key)) by {
            if keys@.take(j as int).contains(key) {
                let i = choose|i: int| 0 <= i < j && keys@.take(j as int)[i] == key;
                assert(keys@[i] == keys@[j as int]);
            }
        }
        let ghost before = keys@.take(j as int);
        let ghost after = keys@.take(j + 1);
        assert(after =~= before.push(key));
        assert forall|d: u32| #[trigger] after.contains(d) <==> before.contains(d) || d == key by {
            if after.contains(d) {
                let i = choose|i: int| 0 <= i < after.len() && after[i] == d;
                if i < before.len() {
                    assert(before[i] == d);
                }
            }
            if before.contains(d) {
                let i = choose|i: int| 0 <= i < before.len() && before[i] == d;
                assert(after[i] == d);
            }
            if d == key {
                assert(after[j as int] == d);
            }
        }
        match rest.remove(&key) {
            Some(v) => {
                moved.insert(key + off, v);
            },
            None => {},
        }
        assert forall|d: u32|
            #[trigger] moved@.contains_key(d) <==> d >= off && after.contains((d - off) as u32) by {
            if d >= off && (d - off) as u32 == key {
                assert(d == key + off);
            }
        }
        j = j + 1;
    }
    assert(keys@.take(n as int) =~= keys@);
    assert forall|d: u32| orig.contains_key(d) implies keys@.contains(d) by {
        assert(keys@.to_set().contains(d));
    }
    assert(moved@ =~= shifted_doors(orig, off));
    moved
}

/// Numbers the doors of all meshes of a scene in one range: the meshes with
/// door primitives, in order, get consecutive blocks of ids, each as large as
/// the mesh's number of doors; their primitives' door ids and their doors'
/// ids are moved up by the start of their block. Meshes without door
/// primitives are left as they are.
pub fn flat_world_doors<D>(meshes: &mut Vec<MeshDoors<D>>)
    requires
        forall|k: int| 0 <= k < old(meshes)@.len() ==> door_ids_fit(old(meshes)@, k),
    ensures
        final(meshes)@.len() == old(meshes)@.len(),
        forall|k: int|
            0 <= k < old(meshes)@.len() ==> {
                let before = #[trigger] old(meshes)@[k];
                let off = door_offset(old(meshes)@, k) as u32;
                if has_door_primitive(before.primitives@) {
                    &&& final(meshes)@[k].primitives@ == shifted_tags(before.primitives@, off)
                    &&& final(meshes)@[k].doors@ == shifted_doors(before.doors@, off)
                } else {
                    &&& final(meshes)@[k].primitives@ == before.primitives@
                    &&& final(meshes)@[k].doors@ == before.doors@
                }
            },
{
    let ghost orig = meshes@;
    let mut taken: Vec<MeshDoors<D>> = Vec::new();
    std::mem::swap(&mut taken, meshes);
    let mut offset_id: u32 = 0;
    let mut done: Vec<MeshDoors<D>> = Vec::new();
    for mesh in it: taken.into_iter()
        invariant
            it.seq() == orig,
            forall|k: int| 0 <= k < orig.len() ==> door_ids_fit(orig, k),
            done@.len() == it.index(),
            offset_id == door_offset(orig, it.index() as int),
            forall|k: int|
                0 <= k < it.index() ==> {
                    let before = #[trigger] orig[k];
                    let off = door_offset(orig, k) as u32;
                    if has_door_primitive(before.primitives@) {
                        &&& done@[k].primitives@ == shifted_tags(before.primitives@, off)
                        &&& done@[k].doors@ == shifted_doors(before.doors@, off)
                    } else {
                        &&& done@[k].primitives@ == before.primitives@
                        &&& done@[k].doors@ == before.doors@
                    }
                },
    {
        let ghost k = it.index() as int;
        assert(mesh == orig[k]);
        assert(door_ids_fit(orig, k));
        let MeshDoors { primitives, doors } = mesh;
        if has_door(&primitives) {
            let doors_len = doors.len();
            let mut primitives = primitives;
            shift_tags(&mut primitives, offset_id);
            let moved = shift_doors(doors, offset_id);
            done.push(MeshDoors { primitives, doors: moved });
            offset_id = offset_id + doors_len as u32;
        } else {
            done.push(MeshDoors { primitives, doors });
        }
    }
    *meshes = done;
}

proof fn lemma_door_offset_monotone<D>(ms: Seq<MeshDoors<D>>, a: int, b: int)
    requires
        0 <= a <= b,
    ensures
        door_offset(ms, a) <= door_offset(ms, b),
    decreases b - a,
{
    if a < b {
        lemma_door_offset_monotone(ms, a, b - 1);
    }
}

/// Once the doors of a scene are numbered in one range, two meshes never
/// share a door id, provided each mesh numbers its own doors from zero up
/// (every door id of a mesh is below its number of doors).
pub proof fn lemma_flat_door_ids_distinct<D>(ms: Seq<MeshDoors<D>>, a: int, b: int, d: u32)
    requires
        0 <= a < b < ms.len(),
        has_door_primitive(ms[a].primitives@),
        has_door_primitive(ms[b].primitives@),
        forall|k: int, key: u32|
            0 <= k < ms.len() && #[trigger] ms[k].doors@.contains_key(key) ==> key
                < ms[k].doors@.len(),
        forall|k: int| 0 <= k < ms.len() ==> door_ids_fit(ms, k),
    ensures
        !(shifted_doors(ms[a].doors@, door_offset(ms, a) as u32).contains_key(d) && shifted_doors(
            ms[b].doors@,
            door_offset(ms, b) as u32,
        ).contains_key(d)),
{
    lemma_door_offset_monotone(ms, 0, a);
    lemma_door_offset_monotone(ms, a + 1, b);
    assert(door_ids_fit(ms, a));
    assert(door_ids_fit(ms, b));
    let off_a = door_offset(ms, a);
    let off_b = door_offset(ms, b);
    assert(door_offset(ms, a + 1) == off_a + ms[a].doors@.len());
    if shifted_doors(ms[a].doors@, off_a as u32).contains_key(d) && shifted_doors(
        ms[b].doors@,
        off_b as u32,
    ).contains_key(d) {
        assert(ms[a].doors@.contains_key((d - off_a as u32) as u32));
        assert(d < off_a + ms[a].doors@.len());
    }
}

/// Renumbering keeps every door primitive linked to its door: where a tag's
/// id names a door of the mesh, the moved id names the same door among the
/// moved doors.
pub proof fn lemma_shift_keeps_door_links<D>(p: Seq<IsDoor>, m: Map<u32, D>, off: u32, i: int)
    requires
        0 <= i < p.len(),
        p[i].id is Some,
        m.contains_key(p[i].id->0),
        p[i].id->0 + off <= u32::MAX,
    ensures
        shifted_tags(p, off)[i].id is Some,
        shifted_doors(m, off).contains_key(shifted_tags(p, off)[i].id->0),
        shifted_doors(m, off)[shifted_tags(p, off)[i].id->0] == m[p[i].id->0],
{
    let k = (p[i].id->0 + off) as u32;
    assert(shifted_tags(p, off)[i].id->0 == k);
    assert((k - off) as u32 == p[i].id->0);
}

} // verus!
