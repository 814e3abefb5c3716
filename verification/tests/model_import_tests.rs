use nogame::meshes::{BakedTexture, IsDoor};
use nogame::model_import::ModelLoad;
use nogame::model_import::{
    audio_path, bake_texture, baked_from_surfaces, baked_model_path, BakeError, block_extent, contains_word_ignoring_case, door_tag, dynamic_offset,
    geometry_totals, node_role, parse_u32_from, source_model_path, to_rgba, DoorNodes, DoorPair, IndexLayout,
    NodeRole, PixelFormat, PrimitiveCounts, PrimitiveRange, TextureCache,
};
use nogame::model_import::{
    import_plan, leading_emissive, pack_baked_model, unpack_baked_model, NodeVisit, SceneNode,
};

#[test]
fn word_search_ignores_ascii_case() {
    assert!(contains_word_ignoring_case(b"MyDOORway", b"door"));
    assert!(contains_word_ignoring_case(b"door", b"door"));
    assert!(!contains_word_ignoring_case(b"doo", b"door"));
    assert!(!contains_word_ignoring_case(b"d-o-o-r", b"door"));
    assert!(contains_word_ignoring_case(b"anything", b""));
}

#[test]
fn parse_accepts_standard_decimal() {
    assert_eq!(parse_u32_from(b"Door12", 4), Some(12));
    assert_eq!(parse_u32_from(b"Door+7", 4), Some(7));
    assert_eq!(parse_u32_from(b"0004294967295", 0), Some(4294967295));
    assert_eq!(parse_u32_from(b"00012", 0), Some(12));
}

#[test]
fn parse_rejects_other_text() {
    assert_eq!(parse_u32_from(b"Door", 4), None);
    assert_eq!(parse_u32_from(b"Door+", 4), None);
    assert_eq!(parse_u32_from(b"Door-1", 4), None);
    assert_eq!(parse_u32_from(b"Door1a", 4), None);
    assert_eq!(parse_u32_from(b"4294967296", 0), None);
    assert_eq!(parse_u32_from(b"99999999999999999999", 0), None);
}

#[test]
fn parse_agrees_with_std() {
    for text in ["0", "1", "+1", "", "+", "-3", "12x", "4294967295", "4294967296", " 5", "007"] {
        assert_eq!(parse_u32_from(text.as_bytes(), 0), text.parse::<u32>().ok(), "{text}");
    }
}

#[test]
fn node_roles_by_name() {
    assert_eq!(node_role("Door1"), NodeRole::Door { id: 0 });
    assert_eq!(node_role("DOOR12"), NodeRole::Door { id: 11 });
    assert_eq!(node_role("Empty2"), NodeRole::Lock { id: 1 });
    assert_eq!(node_role("empty"), NodeRole::BadId);
    assert_eq!(node_role("MyDoor3"), NodeRole::BadId);
    assert_eq!(node_role("door_empty"), NodeRole::BadId);
    assert_eq!(node_role("Cube.001"), NodeRole::Plain);
}

#[test]
fn door_tags_from_roles() {
    assert_eq!(door_tag(NodeRole::Door { id: 4 }), IsDoor { id: Some(4), door: true });
    assert_eq!(door_tag(NodeRole::Lock { id: 4 }), IsDoor { id: None, door: false });
    assert_eq!(door_tag(NodeRole::BadId), IsDoor { id: None, door: false });
    assert_eq!(door_tag(NodeRole::Plain), IsDoor { id: None, door: false });
}

#[test]
fn doors_are_paired_with_hinges() {
    let mut nodes: DoorNodes<&str, &str> = DoorNodes::new();
    assert_eq!(nodes.visit_named_node("Empty1", "d-a", "l-a"), NodeRole::Lock { id: 0 });
    assert_eq!(nodes.visit_named_node("Door2", "d-b", "l-b"), NodeRole::Door { id: 1 });
    assert_eq!(nodes.visit_named_node("Wall", "d-c", "l-c"), NodeRole::Plain);
    assert_eq!(nodes.visit_named_node("Door1", "d-d", "l-d"), NodeRole::Door { id: 0 });
    assert_eq!(nodes.visit_named_node("Empty2", "d-e", "l-e"), NodeRole::Lock { id: 1 });
    assert_eq!(nodes.visit_named_node("Door3", "d-f", "l-f"), NodeRole::Door { id: 2 });
    assert_eq!(nodes.doors, vec!["d-b", "d-d", "d-f"]);
    assert_eq!(nodes.locks, vec!["l-a", "l-e"]);
    let mut tags = vec![IsDoor { id: Some(0), door: true }];
    let pairs = nodes.finish(&mut tags);
    assert_eq!(
        pairs,
        vec![DoorPair { id: 0, lock: 0, door: 1 }, DoorPair { id: 1, lock: 1, door: 0 }]
    );
    assert_eq!(tags, vec![IsDoor { id: Some(0), door: true }]);
}

#[test]
fn no_hinge_means_no_doors() {
    let mut nodes: DoorNodes<u8, u8> = DoorNodes::new();
    nodes.visit_named_node("Door1", 1, 2);
    let mut tags = vec![IsDoor { id: Some(0), door: true }, IsDoor { id: None, door: false }];
    let pairs = nodes.finish(&mut tags);
    assert!(pairs.is_empty());
    assert_eq!(tags, vec![IsDoor { id: Some(0), door: false }, IsDoor { id: None, door: false }]);
}

#[test]
fn textures_made_once_per_image() {
    let mut cache = TextureCache::new();
    assert_eq!(cache.texture_for(7), (0, true));
    assert_eq!(cache.texture_for(3), (1, true));
    assert_eq!(cache.texture_for(7), (0, false));
    assert_eq!(cache.texture_for(3), (1, false));
    assert_eq!(cache.count, 2);
}

#[test]
fn rgb_gets_opaque_alpha() {
    assert_eq!(to_rgba(PixelFormat::R8G8B8, &[1, 2, 3, 4, 5, 6, 7]), vec![1, 2, 3, 255, 4, 5, 6, 255]);
    assert_eq!(to_rgba(PixelFormat::R8G8B8A8, &[1, 2, 3, 4]), vec![1, 2, 3, 4]);
    assert!(to_rgba(PixelFormat::R8G8B8, &[]).is_empty());
}

#[test]
fn block_extents() {
    assert_eq!(block_extent(0), 0);
    assert_eq!(block_extent(1), 4);
    assert_eq!(block_extent(4), 4);
    assert_eq!(block_extent(1023), 1024);
    assert_eq!(block_extent(u32::MAX - 3), u32::MAX - 3);
}

#[test]
fn dynamic_offsets() {
    assert_eq!(dynamic_offset(0), 0);
    assert_eq!(dynamic_offset(3), 768);
}

#[test]
fn primitives_share_the_index_buffer() {
    let mut layout = IndexLayout::new();
    let a = layout.append_primitive(3, &[0, 1, 2]);
    assert_eq!(a, PrimitiveRange { start: 0, count: 3, offset_buffer: 0 });
    let b = layout.append_primitive(4, &[0, 1, 2, 2, 3, 0]);
    assert_eq!(b, PrimitiveRange { start: 3, count: 6, offset_buffer: 256 });
    assert_eq!(layout.indices, vec![0, 1, 2, 3, 4, 5, 5, 6, 3]);
    assert_eq!(layout.vertex_count, 7);
    assert_eq!(layout.matrix_count, 2);
}

#[test]
fn geometry_totals_sum_declared_counts() {
    let prims = [
        PrimitiveCounts { positions: Some(24), indices: Some(36) },
        PrimitiveCounts { positions: None, indices: Some(6) },
        PrimitiveCounts { positions: Some(4), indices: None },
    ];
    assert_eq!(geometry_totals(&prims), (28, 42));
    assert_eq!(geometry_totals(&[]), (0, 0));
}

#[test]
fn asset_paths() {
    assert_eq!(baked_model_path("door"), "./assets/baked_models/door.model");
    assert_eq!(source_model_path("catdoor_edited"), "./assets/models/catdoor_edited.glb");
    assert_eq!(audio_path("jog.mp3"), "./assets/audio/jog.mp3");
}

#[test]
fn baked_texture_takes_last_surface() {
    let out = Some(vec![vec![vec![1u8, 2], vec![3, 4, 5]], vec![vec![9u8; 16]]]);
    let t = baked_from_surfaces(out, 5, 3).unwrap();
    assert_eq!(t.texture, vec![9u8; 16]);
    assert_eq!((t.width, t.height), (8, 4));
    assert_eq!(baked_from_surfaces(None, 4, 4).err(), Some(BakeError::Compression));
    assert_eq!(baked_from_surfaces(Some(vec![]), 4, 4).err(), Some(BakeError::NoLevel));
    assert_eq!(baked_from_surfaces(Some(vec![vec![vec![1u8]], vec![]]), 4, 4).err(), Some(BakeError::NoLayer));
}

#[test]
fn baked_texture_is_compressed() {
    let pixels: Vec<u8> = (0..48u32).map(|i| (i * 5) as u8).collect();
    let t = bake_texture(PixelFormat::R8G8B8, &pixels, 4, 4).unwrap();
    assert_eq!((t.width, t.height), (4, 4));
    assert_eq!(t.texture.len(), 16);
    let rgba = to_rgba(PixelFormat::R8G8B8, &pixels);
    assert_ne!(t.texture, rgba);
}

#[test]
fn baked_texture_refuses_short_or_empty_images() {
    let pixels: Vec<u8> = vec![7u8; 12];
    assert_eq!(bake_texture(PixelFormat::R8G8B8A8, &pixels, 4, 4).err(), Some(BakeError::Compression));
    assert_eq!(bake_texture(PixelFormat::R8G8B8, &pixels, 0, 4).err(), Some(BakeError::Compression));
    let t = bake_texture(PixelFormat::R8G8B8A8, &pixels, 3, 1).unwrap();
    assert_eq!((t.width, t.height), (4, 4));
    assert_eq!(t.texture.len(), 16);
}

#[test]
fn primitive_ranges_tile_the_index_buffer() {
    let mut layout = IndexLayout::new();
    let prims: Vec<(usize, Vec<u32>)> = vec![(3, vec![0, 1, 2]), (2, vec![]), (4, vec![3, 0, 1, 1]), (1, vec![0])];
    let mut bases = Vec::new();
    let mut ranges = Vec::new();
    for (v, local) in &prims {
        bases.push(layout.vertex_count as u32);
        ranges.push(layout.append_primitive(*v, local));
    }
    assert_eq!(ranges[0].start, 0);
    for k in 0..ranges.len() {
        assert_eq!(ranges[k].offset_buffer, 256 * k as u32);
        assert_eq!(ranges[k].count as usize, prims[k].1.len());
        if k + 1 < ranges.len() {
            assert_eq!(ranges[k + 1].start, ranges[k].start + ranges[k].count);
        }
        for j in 0..ranges[k].count {
            let i = layout.indices[(ranges[k].start + j) as usize];
            assert!(bases[k] <= i && i < bases[k] + prims[k].0 as u32);
        }
    }
    let last = ranges[ranges.len() - 1];
    assert_eq!((last.start + last.count) as usize, layout.indices.len());
    assert_eq!(layout.matrix_count, prims.len());
}

#[test]
fn texture_walk_numbers_images_in_first_use_order() {
    let mut cache = TextureCache::new();
    let images = [5usize, 2, 5, 9, 2, 2, 0];
    let answers: Vec<(usize, bool)> = images.iter().map(|i| cache.texture_for(*i)).collect();
    assert_eq!(answers, vec![(0, true), (1, true), (0, false), (2, true), (1, false), (1, false), (3, true)]);
    assert_eq!(cache.count, 4);
    for (k, img) in images.iter().enumerate() {
        assert_eq!(cache.slots[img], answers[k].0);
    }
}

#[test]
fn finishing_keeps_door_ids_on_door_tags() {
    let tags: Vec<IsDoor> = [NodeRole::Door { id: 4 }, NodeRole::Plain, NodeRole::Lock { id: 1 }, NodeRole::BadId]
        .iter()
        .map(|r| door_tag(*r))
        .collect();
    for t in &tags {
        assert!(!t.door || t.id.is_some());
    }
    let mut nodes: DoorNodes<u8, u8> = DoorNodes::new();
    nodes.visit_named_node("Door5", 1, 2);
    nodes.visit_named_node("Empty5", 1, 2);
    let mut kept = tags.clone();
    nodes.finish(&mut kept);
    assert_eq!(kept, tags);
    for t in &kept {
        assert!(!t.door || t.id.is_some());
    }
}

fn leaf(index: usize, emissive: Vec<bool>, children: Vec<SceneNode>) -> SceneNode {
    SceneNode { index, emissive, children }
}

#[test]
fn leading_emissive_primitives() {
    assert_eq!(leading_emissive(&[]), 0);
    assert_eq!(leading_emissive(&[true, true]), 2);
    assert_eq!(leading_emissive(&[true, false, true]), 1);
    assert_eq!(leading_emissive(&[false]), 0);
}

#[test]
fn import_walk_stops_at_a_plain_primitive() {
    let roots = vec![
        leaf(
            0,
            vec![true, true],
            vec![
                leaf(1, vec![true, false, true], vec![leaf(3, vec![true], vec![])]),
                leaf(2, vec![], vec![leaf(4, vec![true], vec![])]),
            ],
        ),
        leaf(5, vec![false], vec![leaf(6, vec![], vec![])]),
        leaf(7, vec![], vec![]),
    ];
    let plan = import_plan(&roots);
    assert_eq!(
        plan,
        vec![
            NodeVisit { node: 0, parent: None, primitives: 2 },
            NodeVisit { node: 1, parent: Some(0), primitives: 1 },
            NodeVisit { node: 2, parent: Some(0), primitives: 0 },
            NodeVisit { node: 4, parent: Some(2), primitives: 1 },
            NodeVisit { node: 5, parent: None, primitives: 0 },
            NodeVisit { node: 7, parent: None, primitives: 0 },
        ]
    );
    for (k, v) in plan.iter().enumerate() {
        assert!(v.parent.map_or(true, |p| p < k));
    }
    assert!(import_plan(&vec![]).is_empty());
}

#[test]
fn baked_model_bytes_round_trip() {
    let payload: Vec<u8> = (0..2000u32).map(|i| (i % 7) as u8).collect();
    let frame = pack_baked_model(&payload).unwrap();
    assert_eq!(&frame[..4], &[0x28, 0xB5, 0x2F, 0xFD]);
    assert_ne!(frame, payload);
    assert!(frame.len() < payload.len());
    assert_eq!(unpack_baked_model(&frame), Some(payload));
    assert_eq!(unpack_baked_model(&pack_baked_model(&[]).unwrap()), Some(vec![]));
}

#[test]
fn baked_model_bytes_refuse_garbage() {
    assert_eq!(unpack_baked_model(&[1, 2, 3, 4, 5, 6, 7, 8]), None);
    let mut frame = pack_baked_model(b"some model").unwrap();
    frame.truncate(frame.len() - 3);
    assert_eq!(unpack_baked_model(&frame), None);
}

#[test]
fn model_load_keeps_its_layout_textures_and_door_ids() {
    let tex = |b: u8| BakedTexture { texture: vec![b; 16], width: 4, height: 4 };
    let mut load = ModelLoad::new();
    let steps: Vec<(usize, Vec<u32>, usize, NodeRole)> = vec![
        (3, vec![0, 1, 2], 7, NodeRole::Door { id: 2 }),
        (4, vec![0, 1, 2, 2, 3, 0], 3, NodeRole::Plain),
        (2, vec![], 7, NodeRole::Lock { id: 2 }),
        (1, vec![0], 9, NodeRole::Door { id: 0 }),
    ];
    for (v, local, image, role) in &steps {
        let fresh = !load.has_texture(*image);
        let baked = if fresh { Some(tex(*image as u8)) } else { None };
        load.add_primitive(*v, local, *image, *role, baked);
    }
    let ids: Vec<usize> = load.primitives.iter().map(|p| p.texture_id).collect();
    assert_eq!(ids, vec![0, 1, 0, 2]);
    assert_eq!(load.baked.len(), 3);
    assert_eq!(load.layout.matrix_count, 4);
    assert_eq!(load.primitives[0].range.start, 0);
    for (k, p) in load.primitives.iter().enumerate() {
        assert_eq!(p.range.offset_buffer, 256 * k as u32);
        assert!(p.texture_id < load.baked.len());
        if k + 1 < load.primitives.len() {
            assert_eq!(load.primitives[k + 1].range.start, p.range.start + p.range.count);
        }
    }
    let last = load.primitives[3].range;
    assert_eq!((last.start + last.count) as usize, load.layout.indices.len());
    let mut nodes: DoorNodes<u8, u8> = DoorNodes::new();
    nodes.visit_named_node("Door3", 1, 2);
    let pairs = load.finish_doors(&nodes);
    assert!(pairs.is_empty());
    assert!(load.tags.iter().all(|t| !t.door));
    assert_eq!(load.tags[0], IsDoor { id: Some(2), door: false });
    assert_eq!(load.tags[3], IsDoor { id: Some(0), door: false });
}
