use voxel_chunks::chunk_map::{copy_extent, AmbientExtent, ChunkCopySrc, ChunkMapBuilderNxM};
use voxel_chunks::array::Array3x1;
use voxel_chunks::extent::Extent3i;
use voxel_chunks::point::Point3i;
use voxel_chunks::IsEmpty;

#[test]
fn write_and_read_points() {
    let builder = ChunkMapBuilderNxM::new(Point3i::fill(16), 0);
    let mut map = builder.build_with_hash_map_storage();

    let points = [
        [0, 0, 0],
        [1, 2, 3],
        [16, 0, 0],
        [0, 16, 0],
        [0, 0, 16],
        [15, 0, 0],
        [-15, 0, 0],
    ];

    for p in points.iter().cloned() {
        let p = Point3i::new(p[0], p[1], p[2]);
        assert_eq!(*map.get_mut(p), 0);
        *map.get_mut(p) = 1;
        assert_eq!(*map.get_mut(p), 1);
    }
}

#[test]
fn write_extent_with_for_each_then_read() {
    let builder = ChunkMapBuilderNxM::new(Point3i::fill(16), 0);
    let mut map = builder.build_with_hash_map_storage();

    let write_extent = Extent3i::from_min_and_shape(Point3i::fill(10), Point3i::fill(80));
    map.fill_extent(&write_extent, 1);

    let read_extent = Extent3i::from_min_and_shape(Point3i::fill(0), Point3i::fill(100));
    for p in read_extent.points() {
        if write_extent.contains(p) {
            assert_eq!(map.get(p), 1);
        } else {
            assert_eq!(map.get(p), 0);
        }
    }
}

#[test]
fn copy_extent_from_array_then_read() {
    let extent_to_copy = Extent3i::from_min_and_shape(Point3i::fill(10), Point3i::fill(80));
    let array = Array3x1::fill(extent_to_copy, 1);

    let builder = ChunkMapBuilderNxM::new(Point3i::fill(16), 0);
    let mut map = builder.build_with_hash_map_storage();

    copy_extent(&extent_to_copy, &array, &mut map);

    let read_extent = Extent3i::from_min_and_shape(Point3i::fill(0), Point3i::fill(100));
    for p in read_extent.points() {
        if extent_to_copy.contains(p) {
            assert_eq!(map.get(p), 1);
        } else {
            assert_eq!(map.get(p), 0);
        }
    }
}

#[test]
fn multichannel_accessors() {
    let builder = ChunkMapBuilderNxM::new(Point3i::fill(16), (0, 'a'));
    let mut map = builder.build_with_hash_map_storage();

    assert_eq!(map.get(Point3i::fill(1)), (0, 'a'));
    assert_eq!(*map.get_mut(Point3i::fill(1)), (0, 'a'));

    let extent = Extent3i::from_min_and_shape(Point3i::fill(10), Point3i::fill(80));

    map.fill_extent(&extent, (1, 'b'));

    for (_p, (num, letter)) in map.for_each(&extent) {
        assert_eq!(num, 1);
        assert_eq!(letter, 'b');
    }

    map.fill_extent(&extent, (1, 'b'));
}

#[test]
fn reads_of_untouched_points_stay_ambient() {
    let builder = ChunkMapBuilderNxM::new(Point3i::fill(16), 7);
    let mut map = builder.build_with_hash_map_storage();
    assert_eq!(map.get(Point3i::fill(5)), 7);
    map.set(Point3i::new(1, 2, 3), 9);
    assert_eq!(map.get(Point3i::new(1, 2, 3)), 9);
    // The rest of the materialized chunk still reads ambient.
    assert_eq!(map.get(Point3i::new(1, 2, 4)), 7);
    // Points in never-touched chunks read ambient.
    assert_eq!(map.get(Point3i::fill(-100)), 7);
}

#[test]
fn bounding_extent_covers_exactly_the_written_chunks() {
    let builder = ChunkMapBuilderNxM::new(Point3i::fill(16), 0);
    let mut map = builder.build_with_hash_map_storage();

    for p in [
        Point3i::fill(-100),
        Point3i::fill(0),
        Point3i::fill(100),
    ] {
        *map.get_mut(p) = 1;
    }

    let bounding = map.bounding_extent();
    // Chunk keys are -112, 0 and 96; the last chunk ends at 111 inclusive.
    assert_eq!(bounding.minimum, Point3i::fill(-112));
    assert_eq!(bounding.shape, Point3i::fill(224));
}

#[test]
fn bounding_extent_of_empty_map_is_degenerate() {
    let builder = ChunkMapBuilderNxM::new(Point3i::fill(16), 0i32);
    let map = builder.build_with_hash_map_storage();
    let bounding = map.bounding_extent();
    assert_eq!(bounding.minimum, Point3i::fill(0));
    assert_eq!(bounding.shape, Point3i::fill(0));
}

#[test]
fn filling_an_extent_twice_changes_nothing_more() {
    let builder = ChunkMapBuilderNxM::new(Point3i::fill(8), 0);
    let mut map = builder.build_with_hash_map_storage();
    let extent = Extent3i::from_min_and_shape(Point3i::fill(-4), Point3i::fill(10));

    map.fill_extent(&extent, 3);
    let once = map.for_each(&Extent3i::from_min_and_shape(Point3i::fill(-8), Point3i::fill(20)));
    let keys_once: Vec<Point3i> = map.storage().keys.clone();

    map.fill_extent(&extent, 3);
    let twice = map.for_each(&Extent3i::from_min_and_shape(Point3i::fill(-8), Point3i::fill(20)));
    let keys_twice: Vec<Point3i> = map.storage().keys.clone();

    assert_eq!(once, twice);
    assert_eq!(keys_once, keys_twice);
}

#[test]
fn chunk_level_operations_round_trip() {
    let builder = ChunkMapBuilderNxM::new(Point3i::fill(4), 0u16);
    let mut map = builder.build_with_hash_map_storage();
    let indexer = map.indexer;
    let key = Point3i::new(4, 0, -4);
    assert!(indexer.chunk_key_is_valid(key));
    assert!(map.get_chunk(key).is_none());

    let chunk_extent = indexer.extent_for_chunk_at_key(key);
    let chunk = Array3x1::fill(chunk_extent, 5u16);
    map.write_chunk(key, chunk);
    assert_eq!(map.get(Point3i::new(4, 0, -4)), 5);
    assert_eq!(map.get(Point3i::new(7, 3, -1)), 5);
    assert_eq!(map.get(Point3i::new(8, 0, -4)), 0);

    let replacement = Array3x1::fill(chunk_extent, 6u16);
    let old = map.replace_chunk(key, replacement);
    assert_eq!(old.unwrap().get(Point3i::new(4, 0, -4)), 5);
    assert_eq!(map.get(Point3i::new(4, 0, -4)), 6);

    let popped = map.pop_chunk(key);
    assert_eq!(popped.unwrap().get(Point3i::new(4, 0, -4)), 6);
    assert_eq!(map.get(Point3i::new(4, 0, -4)), 0);

    map.set(Point3i::new(4, 0, -4), 9);
    map.delete_chunk(key);
    assert_eq!(map.get(Point3i::new(4, 0, -4)), 0);
}

#[test]
fn visit_reports_occupied_and_vacant_chunks() {
    let builder = ChunkMapBuilderNxM::new(Point3i::fill(8), 0);
    let mut map = builder.build_with_hash_map_storage();
    map.set(Point3i::fill(0), 1);

    let query = Extent3i::from_min_and_shape(Point3i::fill(0), Point3i::fill(16));
    let visited = map.visit_chunks(&query);
    assert_eq!(visited.len(), 8);
    let occupied = map.visit_occupied_chunks(&query);
    assert_eq!(occupied.len(), 1);
    assert_eq!(occupied[0].0, Point3i::fill(0));

    let materialized = map.visit_mut_chunks(&query);
    assert_eq!(materialized.len(), 8);
    let occupied_after = map.visit_occupied_mut_chunks(&query);
    assert_eq!(occupied_after.len(), 8);
}

#[test]
fn ambient_extent_reports_its_value_everywhere() {
    let ambient = AmbientExtent::new(42);
    assert_eq!(ambient.get(), 42);
    let e = Extent3i::from_min_and_shape(Point3i::fill(0), Point3i::fill(2));
    let pairs = ambient.for_each(&e);
    assert_eq!(pairs.len(), 8);
    for (_p, v) in pairs {
        assert_eq!(v, 42);
    }
}

#[test]
fn bool_voxels_report_emptiness() {
    assert!(false.is_empty());
    assert!(!true.is_empty());
}

#[test]
fn get_ref_borrows_stored_and_ambient_values() {
    let builder = ChunkMapBuilderNxM::new(Point3i::fill(4), 2u8);
    let mut map = builder.build_with_hash_map_storage();
    assert_eq!(*map.get_ref(Point3i::fill(1)), 2);
    map.set(Point3i::fill(1), 9);
    assert_eq!(*map.get_ref(Point3i::fill(1)), 9);
    assert_eq!(*map.get_ref(Point3i::fill(2)), 2);
}

#[test]
fn read_extent_pairs_intersections_with_sources() {
    let builder = ChunkMapBuilderNxM::new(Point3i::fill(8), 0);
    let mut map = builder.build_with_hash_map_storage();
    map.set(Point3i::fill(0), 5);

    let query = Extent3i::from_min_and_shape(Point3i::fill(4), Point3i::fill(8));
    let sources = map.read_extent(&query);
    assert_eq!(sources.len(), 8);
    let mut occupied = 0;
    for (intersection, src) in sources {
        for p in intersection.points() {
            assert!(query.contains(p));
        }
        match src {
            ChunkCopySrc::Chunk(chunk) => {
                occupied += 1;
                assert_eq!(chunk.get(Point3i::fill(0)), 5);
            }
            ChunkCopySrc::Ambient(_, ambient) => {
                assert_eq!(ambient.get(), 0);
            }
        }
    }
    assert_eq!(occupied, 1);
}

#[test]
fn chunks_materialize_only_on_writes() {
    let builder = ChunkMapBuilderNxM::new(Point3i::fill(16), 0);
    let mut map = builder.build_with_hash_map_storage();
    // Reads never create storage.
    let _ = map.get(Point3i::fill(3));
    let _ = map.get_ref(Point3i::fill(3));
    let _ = map.for_each(&Extent3i::from_min_and_shape(Point3i::fill(0), Point3i::fill(4)));
    assert_eq!(map.storage().keys.len(), 0);
    // A mutating access materializes exactly the owning chunk.
    *map.get_mut(Point3i::fill(3)) = 1;
    assert_eq!(map.storage().keys.len(), 1);
    assert_eq!(map.storage().keys[0], Point3i::fill(0));
}

#[test]
fn get_mut_chunk_or_insert_ambient_borrows_chunks() {
    let builder = ChunkMapBuilderNxM::new(Point3i::fill(4), 0);
    let mut map = builder.build_with_hash_map_storage();
    let key = Point3i::fill(4);
    {
        let chunk = map.get_mut_chunk_or_insert_ambient(key);
        assert_eq!(chunk.get(Point3i::fill(5)), 0);
        chunk.set(Point3i::fill(5), 8);
    }
    assert_eq!(map.get(Point3i::fill(5)), 8);
    {
        let replacement = Array3x1::fill(
            Extent3i::from_min_and_shape(key, Point3i::fill(4)),
            1,
        );
        let chunk = map.get_mut_chunk_or_insert_with(key, replacement);
        // The chunk already existed, so the given chunk was not inserted.
        assert_eq!(chunk.get(Point3i::fill(5)), 8);
    }
}

#[test]
fn get_mut_chunk_edits_only_stored_chunks() {
    let builder = ChunkMapBuilderNxM::new(Point3i::fill(4), 0);
    let mut map = builder.build_with_hash_map_storage();
    assert!(map.get_mut_chunk(Point3i::fill(0)).is_none());
    map.set(Point3i::fill(1), 2);
    {
        let chunk = map.get_mut_chunk(Point3i::fill(0)).unwrap();
        chunk.set(Point3i::fill(2), 3);
    }
    assert_eq!(map.get(Point3i::fill(1)), 2);
    assert_eq!(map.get(Point3i::fill(2)), 3);
}
