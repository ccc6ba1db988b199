use voxel_map::{
    default_array, default_chunk_map, ChunkCacheConfig, ChunkRepr, ChunkShape, Extent3i,
    LocalChunkCache, Point3i, TypedVoxel, Voxel, VoxelPalette, VoxelWorld,
};

fn pt(x: i32, y: i32, z: i32) -> Point3i {
    Point3i { x, y, z }
}

fn shape16() -> ChunkShape {
    ChunkShape { x: 16, y: 16, z: 16 }
}

fn new_world(max_cached_bytes: usize) -> VoxelWorld<bool> {
    VoxelWorld::new(
        shape16(),
        ChunkCacheConfig { max_cached_bytes },
        VoxelPalette { infos: vec![false, true] },
    )
}

#[test]
fn scenario_edit_point_and_cycle() {
    let mut world = new_world(1 << 24);
    let ext = Extent3i::from_min_and_max(pt(5, 5, 5), pt(5, 5, 5));
    world.edit_extent_and_touch_neighbors(ext, |_p, _v| TypedVoxel { type_index: 1 });

    // A reader that runs before the merge must not see the buffered write.
    let mut cache = LocalChunkCache::new();
    assert_eq!(world.read_voxel(&mut cache, pt(5, 5, 5)).type_index, 0);

    let report = world.process_cycle(vec![cache]);
    assert_eq!(report.num_edited(), 1);
    assert!(report.edited_contains(pt(0, 0, 0)));
    assert_eq!(report.num_dirty(), 27);
    for dx in -1..=1 {
        for dy in -1..=1 {
            for dz in -1..=1 {
                assert!(report.dirty_contains(pt(dx, dy, dz)));
            }
        }
    }

    // With an ample budget, the merged chunk stays decompressed.
    assert_eq!(world.map.voxels.count_decompressed(), 1);

    let mut cache2 = LocalChunkCache::new();
    assert_eq!(world.read_voxel(&mut cache2, pt(5, 5, 5)).type_index, 1);
    assert_eq!(world.read_voxel(&mut cache2, pt(5, 5, 6)).type_index, 0);
}

#[test]
fn single_chunk_edit_dirty_set_is_exact() {
    let mut world = new_world(1 << 24);
    let ext = Extent3i::from_min_and_max(pt(5, 5, 5), pt(5, 5, 5));
    world.edit_extent(ext, |_p, _v| TypedVoxel { type_index: 1 });
    let report = world.process_cycle(Vec::new());
    assert_eq!(report.num_edited(), 1);
    assert!(report.edited_contains(pt(0, 0, 0)));
    assert_eq!(report.num_dirty(), 1);
    assert!(report.dirty_contains(pt(0, 0, 0)));
    assert!(!report.dirty_contains(pt(1, 0, 0)));
}

#[test]
fn second_edit_sees_result_of_first() {
    let mut world = new_world(1 << 24);
    let ext = Extent3i::from_min_and_max(pt(5, 5, 5), pt(5, 5, 5));
    world.edit_extent(ext, |_p, _v| TypedVoxel { type_index: 1 });
    // The chunk is already buffered: this edit starts from the buffered
    // copy (type 1), not from the upstream store (type 0).
    world.edit_extent(ext, |_p, v: TypedVoxel| TypedVoxel { type_index: v.type_index + 1 });
    let _ = world.process_cycle(Vec::new());
    let mut cache = LocalChunkCache::new();
    assert_eq!(world.read_voxel(&mut cache, pt(5, 5, 5)).type_index, 2);
}

#[test]
fn codec_round_trip_reproduces_chunk() {
    let shape = ChunkShape { x: 4, y: 4, z: 4 };
    let mut arr = default_array(&shape);
    arr.data[3] = TypedVoxel { type_index: 7 };
    arr.data[17] = TypedVoxel { type_index: 255 };
    arr.data[63] = TypedVoxel { type_index: 1 };
    let mut expected = Vec::new();
    for v in &arr.data {
        expected.push(v.type_index);
    }

    let repr = ChunkRepr::compress(arr, &shape);
    let back = repr.to_array(&shape);
    assert_eq!(back.data.len(), 64);
    for i in 0..64 {
        assert_eq!(back.data[i].type_index, expected[i]);
    }

    // Recompressing the decompressed copy yields the identical blob.
    let repr2 = ChunkRepr::compress(back, &shape);
    match (&repr, &repr2) {
        (ChunkRepr::Compressed(b1, _), ChunkRepr::Compressed(b2, _)) => assert_eq!(b1, b2),
        _ => panic!("compress must produce the compressed form"),
    }
}

#[test]
fn eviction_keeps_budget_and_loses_no_data() {
    // Budget of exactly one decompressed chunk (16^3 voxels, one byte each).
    let mut world = new_world(4096);
    for (i, x) in [(2u8, 0), (3, 16), (4, 32)] {
        let ext = Extent3i::from_min_and_max(pt(x, 0, 0), pt(x, 0, 0));
        world.edit_extent(ext, move |_p, _v| TypedVoxel { type_index: i });
    }
    let _ = world.process_cycle(Vec::new());

    let vol = 4096;
    let n = world.map.voxels.count_decompressed();
    assert!(n * vol <= 4096);

    // Reads after eviction reproduce the pre-eviction values exactly.
    let mut cache = LocalChunkCache::new();
    assert_eq!(world.read_voxel(&mut cache, pt(0, 0, 0)).type_index, 2);
    assert_eq!(world.read_voxel(&mut cache, pt(16, 0, 0)).type_index, 3);
    assert_eq!(world.read_voxel(&mut cache, pt(32, 0, 0)).type_index, 4);
    assert_eq!(world.read_voxel(&mut cache, pt(1, 0, 0)).type_index, 0);
}

#[test]
fn chunk_overwritten_with_default_is_removed() {
    let mut world = new_world(1 << 24);
    let ext = Extent3i::from_min_and_max(pt(5, 5, 5), pt(5, 5, 5));
    world.edit_extent(ext, |_p, _v| TypedVoxel { type_index: 1 });
    let _ = world.process_cycle(Vec::new());
    assert!(world.map.voxels.contains_chunk(pt(0, 0, 0)));

    // Overwrite the whole chunk with the default voxel; the next cycle's
    // removal pass drops the chunk, and reads inside it stay default.
    let whole = Extent3i::from_min_and_max(pt(0, 0, 0), pt(15, 15, 15));
    world.edit_extent(whole, |_p, _v| TypedVoxel { type_index: 0 });
    let _ = world.process_cycle(Vec::new());
    let _ = world.process_cycle(Vec::new());
    assert!(!world.map.voxels.contains_chunk(pt(0, 0, 0)));
    let mut cache = LocalChunkCache::new();
    assert_eq!(world.read_voxel(&mut cache, pt(5, 5, 5)).type_index, 0);
    assert_eq!(world.read_voxel(&mut cache, pt(0, 0, 0)).type_index, 0);
}

#[test]
fn negative_coordinates_use_floored_chunk_keys() {
    let mut world = new_world(1 << 24);
    let ext = Extent3i::from_min_and_max(pt(-1, -1, -1), pt(-1, -1, -1));
    world.edit_extent(ext, |_p, _v| TypedVoxel { type_index: 1 });
    let report = world.process_cycle(Vec::new());
    assert_eq!(report.num_edited(), 1);
    assert!(report.edited_contains(pt(-1, -1, -1)));
    let mut cache = LocalChunkCache::new();
    assert_eq!(world.read_voxel(&mut cache, pt(-1, -1, -1)).type_index, 1);
    assert_eq!(world.read_voxel(&mut cache, pt(0, 0, 0)).type_index, 0);
}

#[test]
fn insert_chunk_installs_array_and_marks_dirty() {
    let mut world = new_world(1 << 24);
    let mut arr = default_array(&shape16());
    // Voxels are laid out x-fastest: (x, y, z) sits at (z * 16 + y) * 16 + x.
    let idx = (3 * 16 + 2) * 16 + 1;
    arr.data[idx] = TypedVoxel { type_index: 1 };
    world.insert_chunk_and_touch_neighbors(pt(0, 0, 0), arr);
    let report = world.process_cycle(Vec::new());
    assert_eq!(report.num_edited(), 1);
    assert_eq!(report.num_dirty(), 27);
    let mut cache = LocalChunkCache::new();
    assert_eq!(world.read_voxel(&mut cache, pt(1, 2, 3)).type_index, 1);
    assert_eq!(world.read_voxel(&mut cache, pt(3, 2, 1)).type_index, 0);
}

#[test]
fn insert_chunk_without_neighbors_marks_only_itself() {
    let mut world = new_world(1 << 24);
    let arr = default_array(&shape16());
    world.insert_chunk(pt(2, 0, 0), arr);
    let report = world.process_cycle(Vec::new());
    assert_eq!(report.num_dirty(), 1);
    assert!(report.dirty_contains(pt(2, 0, 0)));
}

#[test]
fn fresh_world_reads_default_everywhere() {
    let world = new_world(1 << 24);
    let mut cache = LocalChunkCache::new();
    assert_eq!(world.read_voxel(&mut cache, pt(0, 0, 0)).type_index, 0);
    assert_eq!(world.read_voxel(&mut cache, pt(-100, 55, 7)).type_index, 0);
    assert!(!world.map.voxels.contains_chunk(pt(0, 0, 0)));
}

#[test]
fn get_or_insert_creates_once() {
    let mut store = default_chunk_map(shape16());
    store.get_or_insert(pt(1, 2, 3));
    store.get_or_insert(pt(1, 2, 3));
    assert!(store.contains_chunk(pt(1, 2, 3)));
    assert_eq!(store.chunks.len(), 1);
}

#[test]
fn palette_lookup_by_type_index() {
    let palette = VoxelPalette { infos: vec!["air", "stone"] };
    let v = TypedVoxel { type_index: 1 };
    assert_eq!(v.get_type_index(), 1);
    assert_eq!(*palette.get_voxel_type_info(v), "stone");
    assert_eq!(*palette.get_voxel_type_info(TypedVoxel { type_index: 0 }), "air");
}

#[test]
fn flushed_cache_preserves_every_voxel() {
    // Force a chunk to be compressed, read it through a local cache (which
    // decompresses into the cache), then flush that cache in the next cycle
    // and check the store still reads the same.
    let mut world = new_world(0);
    let ext = Extent3i::from_min_and_max(pt(5, 5, 5), pt(5, 5, 5));
    world.edit_extent(ext, |_p, _v| TypedVoxel { type_index: 1 });
    let _ = world.process_cycle(Vec::new());
    assert_eq!(world.map.voxels.count_decompressed(), 0);

    let mut cache = LocalChunkCache::new();
    assert_eq!(world.read_voxel(&mut cache, pt(5, 5, 5)).type_index, 1);
    let _ = world.process_cycle(vec![cache]);
    let mut cache2 = LocalChunkCache::new();
    assert_eq!(world.read_voxel(&mut cache2, pt(5, 5, 5)).type_index, 1);
    assert_eq!(world.read_voxel(&mut cache2, pt(6, 5, 5)).type_index, 0);
}

#[test]
fn voxel_info_lookup_through_map() {
    let mut world = new_world(1 << 24);
    let ext = Extent3i::from_min_and_max(pt(5, 5, 5), pt(5, 5, 5));
    world.edit_extent(ext, |_p, _v| TypedVoxel { type_index: 1 });
    let _ = world.process_cycle(Vec::new());
    let mut cache = LocalChunkCache::new();
    assert_eq!(*world.map.voxel_info_at(&mut cache, pt(5, 5, 5)), true);
    assert_eq!(*world.map.voxel_info_at(&mut cache, pt(6, 5, 5)), false);
}

#[test]
fn edit_spanning_two_chunks() {
    let mut world = new_world(1 << 24);
    let ext = Extent3i::from_min_and_max(pt(14, 0, 0), pt(17, 0, 0));
    world.edit_extent_and_touch_neighbors(ext, |_p, _v| TypedVoxel { type_index: 1 });
    let report = world.process_cycle(Vec::new());
    assert_eq!(report.num_edited(), 2);
    assert!(report.edited_contains(pt(0, 0, 0)));
    assert!(report.edited_contains(pt(1, 0, 0)));
    // Keys -1..=2 on the x axis, -1..=1 on the others.
    assert_eq!(report.num_dirty(), 4 * 3 * 3);
    let mut cache = LocalChunkCache::new();
    for x in 14..=17 {
        assert_eq!(world.read_voxel(&mut cache, pt(x, 0, 0)).type_index, 1);
    }
    assert_eq!(world.read_voxel(&mut cache, pt(13, 0, 0)).type_index, 0);
    assert_eq!(world.read_voxel(&mut cache, pt(18, 0, 0)).type_index, 0);
}
