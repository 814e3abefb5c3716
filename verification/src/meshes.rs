//! Per-primitive door tags, baked textures, and the decisions taken for the
//! meshes of a loaded scene: which colliders to build, when doors need
//! updating, how a door may swing, and which draw calls to record.

use crate::scene::MeshDoors;
use vstd::prelude::*;

verus! {

broadcast use vstd::std_specs::hash::group_hash_axioms;

/// Whether a primitive belongs to a door, and which door.
#[derive(Clone, Copy, PartialEq, Eq, Structural, Debug)]
pub struct IsDoor {
    pub id: Option<u32>,
    pub door: bool,
}

/// A compressed texture as stored in a baked model file.
pub struct BakedTexture {
    pub texture: Vec<u8>,
    pub width: u32,
    pub height: u32,
}

/// The physics body a primitive gets.
#[derive(Clone, Copy, PartialEq, Eq, Structural, Debug)]
pub enum ColliderKind {
    /// A fixed box.
    Static,
    /// A swinging door on a hinge, for this door id.
    Hinged { id: u32 },
    /// No body.
    Skip,
}

/// The body for a primitive with tag `t` in a mesh that has doors
/// (`mesh_has_doors`) or not.
pub open spec fn spec_collider(t: IsDoor, mesh_has_doors: bool) -> ColliderKind {
    if !t.door {
        ColliderKind::Static
    } else if mesh_has_doors {
        match t.id {
            Some(id) => ColliderKind::Hinged { id },
            None => ColliderKind::Skip,
        }
    } else {
        ColliderKind::Skip
    }
}

/// The bodies for the primitives of a mesh, in order: a fixed box for each
/// primitive that is no door, a hinged door for each door primitive with an
/// id where the mesh has doors, and nothing for the rest.
pub fn collider_plan<D>(mesh: &MeshDoors<D>) -> (plan: Vec<ColliderKind>)
    ensures
        plan@.len() == mesh.primitives@.len(),
        forall|i: int|
            0 <= i < plan@.len() ==> #[trigger] plan@[i] == spec_collider(
                mesh.primitives@[i],
                mesh.doors@.len() != 0,
            ),
{
    let has_doors = mesh.doors.len() != 0;
    let n = mesh.primitives.len();
    let mut plan: Vec<ColliderKind> = Vec::new();
    let mut i: usize = 0;
    while i < n
        invariant
            n == mesh.primitives@.len(),
            has_doors == (mesh.doors@.len() != 0),
            i <= n,
            plan@.len() == i,
            forall|k: int|
                0 <= k < i ==> #[trigger] plan@[k] == spec_collider(mesh.primitives@[k], has_doors),
        decreases n - i,
    {
        let t = mesh.primitives[i];
        let kind = if !t.door {
            ColliderKind::Static
        } else if has_doors {
            match t.id {
                Some(id) => ColliderKind::Hinged { id },
                None => ColliderKind::Skip,
            }
        } else {
            ColliderKind::Skip
        };
        plan.push(kind);
        i = i + 1;
    }
    plan
}

/// How a door is moving, as measured by the physics step.
#[derive(Clone, Copy, PartialEq, Eq, Structural, Debug)]
pub struct DoorMotion {
    /// It turns about its hinge faster than the rest threshold.
    pub spinning: bool,
    /// It stands further open than the closed threshold.
    pub open: bool,
}

/// Doors need updating while any door spins or the last door stands open.
pub open spec fn spec_doors_need_update(doors: Seq<DoorMotion>) -> bool {
    (exists|i: int| 0 <= i < doors.len() && #[trigger] doors[i].spinning) || (doors.len() > 0
        && doors.last().open)
}

/// Whether the doors need updating (and the shadow maps redrawing).
pub fn doors_need_update(doors: &[DoorMotion]) -> (r: bool)
    ensures
        r == spec_doors_need_update(doors@),
{
    let n = doors.len();
    let mut spinning = false;
    let mut open = false;
    let mut i: usize = 0;
    while i < n
        invariant
            n == doors@.len(),
            i <= n,
            spinning == exists|k: int| 0 <= k < i && #[trigger] doors@[k].spinning,
            open == (i > 0 && doors@[i - 1].open),
        decreases n - i,
    {
        open = doors[i].open;
        spinning = spinning || doors[i].spinning;
        i = i + 1;
    }
    spinning || open
}

/// The swing limits a door gets this frame.
#[derive(Clone, Copy, PartialEq, Eq, Structural, Debug)]
pub enum DoorSwing {
    /// May open a quarter turn in the positive direction.
    OpenForward,
    /// May open a quarter turn in the negative direction.
    OpenBackward,
    /// Held shut.
    Hold,
    /// Already open: keep its limits and wake its body.
    Wake,
}

/// The swing of a door: a closed door opens away from the side it is pushed
/// from (the forward push winning), or is held shut when not pushed; an open
/// door is woken.
pub fn door_swing(closed: bool, pushed_forward: bool, pushed_backward: bool) -> (s: DoorSwing)
    ensures
        s == (if !closed {
            DoorSwing::Wake
        } else if pushed_forward {
            DoorSwing::OpenForward
        } else if pushed_backward {
            DoorSwing::OpenBackward
        } else {
            DoorSwing::Hold
        }),
{
    if closed {
        if pushed_forward {
            DoorSwing::OpenForward
        } else if pushed_backward {
            DoorSwing::OpenBackward
        } else {
            DoorSwing::Hold
        }
    } else {
        DoorSwing::Wake
    }
}

/// Where a primitive's indices, texture and model matrix are.
#[derive(Clone, Copy, PartialEq, Eq, Structural, Debug)]
pub struct DrawRange {
    pub start: u32,
    pub count: u32,
    pub texture_id: usize,
    pub offset_buffer: u32,
}

/// One recorded draw: the texture bound to group 1 (if any), the group and
/// dynamic offset of the model matrix, and the range of indices drawn.
#[derive(Clone, Copy, PartialEq, Eq, Structural, Debug)]
pub struct DrawCommand {
    pub texture: Option<usize>,
    pub matrix_group: u32,
    pub matrix_offset: u32,
    pub first: u32,
    pub end: u32,
}

/// The draw of primitive `p`: with textures, the texture goes to group 1 and
/// the matrix to group 2; without, the matrix goes to group 1.
pub open spec fn spec_draw(p: DrawRange, with_textures: bool) -> DrawCommand {
    DrawCommand {
        texture: if with_textures {
            Some(p.texture_id)
        } else {
            None
        },
        matrix_group: if with_textures {
            2
        } else {
            1
        },
        matrix_offset: p.offset_buffer,
        first: p.start,
        end: (p.start + p.count) as u32,
    }
}

/// The draws of the first `n` primitives, skipping those not visible.
pub open spec fn spec_draws(prims: Seq<DrawRange>, visible: Seq<bool>, with_textures: bool, n: int) -> Seq<
    DrawCommand,
>
    decreases n,
{
    if n <= 0 {
        Seq::empty()
    } else {
        let prev = spec_draws(prims, visible, with_textures, n - 1);
        if visible[n - 1] {
            prev.push(spec_draw(prims[n - 1], with_textures))
        } else {
            prev
        }
    }
}

/// The draws for the primitives of a mesh, in order, of those that are
/// visible (`visible[i]` for `prims[i]`).
pub fn plan_draws(prims: &[DrawRange], visible: &[bool], with_textures: bool) -> (draws: Vec<DrawCommand>)
    requires
        visible@.len() == prims@.len(),
        forall|i: int|
            0 <= i < prims@.len() && visible@[i] ==> #[trigger] prims@[i].start + prims@[i].count
                <= u32::MAX,
    ensures
        draws@ == spec_draws(prims@, visible@, with_textures, prims@.len() as int),
{
    let n = prims.len();
    let mut draws: Vec<DrawCommand> = Vec::new();
    let mut i: usize = 0;
    while i < n
        invariant
            n == prims@.len(),
            visible@.len() == n,
            i <= n,
            forall|k: int|
                0 <= k < n && visible@[k] ==> #[trigger] prims@[k].start + prims@[k].count <= u32::MAX,
            draws@ == spec_draws(prims@, visible@, with_textures, i as int),
        decreases n - i,
    {
        if visible[i] {
            let p = prims[i];
            draws.push(
                DrawCommand {
                    texture: if with_textures {
                        Some(p.texture_id)
                    } else {
                        None
                    },
                    matrix_group: if with_textures {
                        2
                    } else {
                        1
                    },
                    matrix_offset: p.offset_buffer,
                    first: p.start,
                    end: p.start + p.count,
                },
            );
        }
        i = i + 1;
    }
    draws
}

/// A door primitive of a mesh: its place among the mesh's primitives and
/// its door id.
#[derive(Clone, Copy, PartialEq, Eq, Structural, Debug)]
pub struct DoorPrimitive {
    pub primitive: usize,
    pub id: u32,
}

/// The door primitives among the first `n` tags, in order.
pub open spec fn spec_door_primitives(tags: Seq<IsDoor>, n: int) -> Seq<DoorPrimitive>
    decreases n,
{
    if n <= 0 {
        Seq::empty()
    } else {
        let prev = spec_door_primitives(tags, n - 1);
        if tags[n - 1].door {
            prev.push(DoorPrimitive { primitive: (n - 1) as usize, id: tags[n - 1].id->0 })
        } else {
            prev
        }
    }
}

/// The door primitives of a mesh, whose doors are moved every frame of play.
pub fn door_primitives(tags: &[IsDoor]) -> (doors: Vec<DoorPrimitive>)
    requires
        forall|i: int| 0 <= i < tags@.len() && (#[trigger] tags@[i]).door ==> tags@[i].id is Some,
    ensures
        doors@ == spec_door_primitives(tags@, tags@.len() as int),
{
    let n = tags.len();
    let mut doors: Vec<DoorPrimitive> = Vec::new();
    let mut i: usize = 0;
    while i < n
        invariant
            n == tags@.len(),
            i <= n,
            forall|k: int| 0 <= k < n && (#[trigger] tags@[k]).door ==> tags@[k].id is Some,
            doors@ == spec_door_primitives(tags@, i as int),
        decreases n - i,
    {
        let t = tags[i];
        if t.door {
            match t.id {
                Some(id) => {
                    doors.push(DoorPrimitive { primitive: i, id });
                },
                None => {},
            }
        }
        i = i + 1;
    }
    doors
}

/// Doors need updating exactly while some door spins or the last door
/// stands open: any spinning door, the last one included, forces an update,
/// and with no door spinning and the last one closed (or no door at all)
/// there is none.
pub proof fn lemma_doors_need_update(doors: Seq<DoorMotion>)
    ensures
        forall|i: int| 0 <= i < doors.len() && (#[trigger] doors[i]).spinning ==> spec_doors_need_update(doors),
        doors.len() > 0 && doors[doors.len() - 1].open ==> spec_doors_need_update(doors),
        (forall|i: int| 0 <= i < doors.len() ==> !(#[trigger] doors[i]).spinning) && (doors.len() == 0
            || !doors[doors.len() - 1].open) ==> !spec_doors_need_update(doors),
{
    assert forall|i: int| 0 <= i < doors.len() && (#[trigger] doors[i]).spinning implies spec_doors_need_update(doors) by {
        assert(doors[i].spinning);
    }
}

/// The door primitives planned for a mesh are exactly its door-tagged
/// primitives, each once, in order: every entry names a door primitive with
/// its id, the places increase, and every door primitive is named.
pub proof fn lemma_door_primitives_exact(tags: Seq<IsDoor>, n: int)
    requires
        0 <= n <= tags.len(),
        n <= usize::MAX + 1,
    ensures
        ({
            let d = spec_door_primitives(tags, n);
            &&& forall|j: int|
                0 <= j < d.len() ==> {
                    let p = (#[trigger] d[j]).primitive as int;
                    &&& 0 <= p < n
                    &&& tags[p].door
                    &&& d[j].id == tags[p].id->0
                }
            &&& forall|j: int, k: int| 0 <= j < k < d.len() ==> #[trigger] d[j].primitive < #[trigger] d[k].primitive
            &&& forall|i: int|
                0 <= i < n && (#[trigger] tags[i]).door ==> exists|j: int|
                    0 <= j < d.len() && #[trigger] d[j].primitive == i
        }),
    decreases n,
{
    if n > 0 {
        lemma_door_primitives_exact(tags, n - 1);
        let prev = spec_door_primitives(tags, n - 1);
        let d = spec_door_primitives(tags, n);
        if tags[n - 1].door {
            assert(d[prev.len() as int].primitive == n - 1);
            assert forall|j: int| 0 <= j < prev.len() implies #[trigger] d[j] == prev[j] by {}
            assert forall|i: int| 0 <= i < n && (#[trigger] tags[i]).door implies exists|j: int|
                0 <= j < d.len() && #[trigger] d[j].primitive == i by {
                if i < n - 1 {
                    let j = choose|j: int| 0 <= j < prev.len() && #[trigger] prev[j].primitive == i;
                    assert(d[j] == prev[j]);
                } else {
                    assert(d[prev.len() as int].primitive == i);
                }
            }
        } else {
            assert forall|i: int| 0 <= i < n && (#[trigger] tags[i]).door implies exists|j: int|
                0 <= j < d.len() && #[trigger] d[j].primitive == i by {
                let j = choose|j: int| 0 <= j < prev.len() && #[trigger] prev[j].primitive == i;
                assert(d[j] == prev[j]);
            }
        }
    }
}

} // verus!
