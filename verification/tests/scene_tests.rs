use nogame::meshes::{
    collider_plan, door_primitives, door_swing, doors_need_update, plan_draws, ColliderKind, DoorMotion,
    DoorPrimitive, DoorSwing, DrawCommand, DrawRange, IsDoor,
};
use nogame::scene::{flat_world_doors, initial_light_cache, light_tiles, progress_step, CacheLights, MeshDoors};
use nogame::ui::{loading_label, progress_bar_length};
use std::collections::HashMap;

fn door(id: u32) -> IsDoor {
    IsDoor { id: Some(id), door: true }
}

fn wall() -> IsDoor {
    IsDoor { id: None, door: false }
}

fn mesh(tags: Vec<IsDoor>, keys: &[u32]) -> MeshDoors<String> {
    let mut doors = HashMap::new();
    for k in keys {
        doors.insert(*k, format!("door {k}"));
    }
    MeshDoors { primitives: tags, doors }
}

#[test]
fn tiles_cover_the_screen() {
    assert_eq!(light_tiles(1920, 1080), 120 * 68);
    assert_eq!(light_tiles(16, 16), 1);
    assert_eq!(light_tiles(17, 1), 2);
    assert_eq!(light_tiles(0, 0), 0);
}

#[test]
fn light_cache_starts_with_one_empty_tile() {
    let cache = initial_light_cache(1920, 1080);
    assert_eq!(cache.len(), 1);
    assert_eq!(cache[0].lights_count, 0);
    assert_eq!(cache[0].lights_in_tile, [0u32; 15]);
    let d = CacheLights::default();
    assert_eq!(d.lights_count, 0);
}

#[test]
fn progress_steps() {
    assert_eq!(progress_step(40, 1), 40);
    assert_eq!(progress_step(40, 3), 13);
    assert_eq!(progress_step(10, 20), 1);
    assert_eq!(progress_step(30, 1000), 1);
    assert_eq!(progress_step(30, 0), u32::MAX);
}

#[test]
fn progress_steps_match_float_rounding() {
    for share in [10u32, 20, 30, 40] {
        for count in 1usize..200 {
            let float = ((share as f32 / count as f32) as u32).max(1);
            assert_eq!(progress_step(share, count), float, "{share} {count}");
        }
    }
}

#[test]
fn doors_numbered_across_meshes() {
    let mut meshes = vec![
        mesh(vec![door(0), wall(), door(1)], &[0, 1]),
        mesh(vec![wall()], &[0]),
        mesh(vec![door(0), IsDoor { id: Some(0), door: false }], &[0]),
        mesh(vec![door(1)], &[0, 1, 2]),
    ];
    flat_world_doors(&mut meshes);
    assert_eq!(meshes[0].primitives, vec![door(0), wall(), door(1)]);
    assert_eq!(meshes[1].primitives, vec![wall()]);
    assert_eq!(meshes[1].doors.get(&0), Some(&"door 0".to_string()));
    assert_eq!(meshes[2].primitives, vec![door(2), IsDoor { id: Some(2), door: false }]);
    assert_eq!(meshes[2].doors.len(), 1);
    assert_eq!(meshes[2].doors.get(&2), Some(&"door 0".to_string()));
    assert_eq!(meshes[3].primitives, vec![door(4)]);
    let mut keys: Vec<u32> = meshes[3].doors.keys().copied().collect();
    keys.sort();
    assert_eq!(keys, vec![3, 4, 5]);
    assert_eq!(meshes[3].doors.get(&5), Some(&"door 2".to_string()));
}

#[test]
fn colliders_for_primitives() {
    let m = mesh(vec![wall(), door(3), IsDoor { id: None, door: true }], &[3]);
    assert_eq!(
        collider_plan(&m),
        vec![ColliderKind::Static, ColliderKind::Hinged { id: 3 }, ColliderKind::Skip]
    );
    let bare = mesh(vec![door(3), wall()], &[]);
    assert_eq!(collider_plan(&bare), vec![ColliderKind::Skip, ColliderKind::Static]);
}

#[test]
fn doors_need_update_while_moving() {
    let still = DoorMotion { spinning: false, open: false };
    let open = DoorMotion { spinning: false, open: true };
    let spin = DoorMotion { spinning: true, open: false };
    assert!(!doors_need_update(&[]));
    assert!(!doors_need_update(&[still, still]));
    assert!(doors_need_update(&[spin, still]));
    assert!(doors_need_update(&[still, open]));
    assert!(!doors_need_update(&[open, still]));
}

#[test]
fn door_swings() {
    assert_eq!(door_swing(false, true, true), DoorSwing::Wake);
    assert_eq!(door_swing(true, true, true), DoorSwing::OpenForward);
    assert_eq!(door_swing(true, false, true), DoorSwing::OpenBackward);
    assert_eq!(door_swing(true, false, false), DoorSwing::Hold);
}

#[test]
fn draws_of_visible_primitives() {
    let prims = [
        DrawRange { start: 0, count: 6, texture_id: 1, offset_buffer: 0 },
        DrawRange { start: 6, count: 3, texture_id: 0, offset_buffer: 256 },
        DrawRange { start: 9, count: 12, texture_id: 2, offset_buffer: 512 },
    ];
    let with = plan_draws(&prims, &[true, false, true], true);
    assert_eq!(
        with,
        vec![
            DrawCommand { texture: Some(1), matrix_group: 2, matrix_offset: 0, first: 0, end: 6 },
            DrawCommand { texture: Some(2), matrix_group: 2, matrix_offset: 512, first: 9, end: 21 },
        ]
    );
    let without = plan_draws(&prims, &[false, true, false], false);
    assert_eq!(
        without,
        vec![DrawCommand { texture: None, matrix_group: 1, matrix_offset: 256, first: 6, end: 9 }]
    );
}

#[test]
fn door_primitives_in_order() {
    assert_eq!(
        door_primitives(&[wall(), door(2), wall(), door(0)]),
        vec![DoorPrimitive { primitive: 1, id: 2 }, DoorPrimitive { primitive: 3, id: 0 }]
    );
}

#[test]
fn loading_caption() {
    assert_eq!(loading_label(0), "Loading 0%");
    assert_eq!(loading_label(42), "Loading 42%");
    assert_eq!(loading_label(100), "Loading 100%");
    assert_eq!(loading_label(u32::MAX), format!("Loading {}%", u32::MAX));
}

#[test]
fn loading_bar_length() {
    assert_eq!(progress_bar_length(0), 0);
    assert_eq!(progress_bar_length(57), 114);
}
