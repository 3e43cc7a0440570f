use voxel_chunks::chunk_indexer::ChunkIndexer;
use voxel_chunks::extent::Extent3i;
use voxel_chunks::point::Point3i;

#[test]
fn chunk_keys_for_extent_gives_keys_for_chunks_overlapping_extent() {
    let indexer = ChunkIndexer::new(Point3i::fill(16));
    let query_extent = Extent3i::from_min_and_shape(Point3i::fill(15), Point3i::fill(16));
    let chunk_keys: Vec<Point3i> = indexer.chunk_keys_for_extent(&query_extent);

    assert_eq!(
        chunk_keys,
        vec![
            Point3i::new(0, 0, 0),
            Point3i::new(16, 0, 0),
            Point3i::new(0, 16, 0),
            Point3i::new(16, 16, 0),
            Point3i::new(0, 0, 16),
            Point3i::new(16, 0, 16),
            Point3i::new(0, 16, 16),
            Point3i::new(16, 16, 16)
        ]
    );
}

#[test]
fn chunk_key_for_negative_point_is_negative() {
    let indexer = ChunkIndexer::new(Point3i::fill(16));
    let p = Point3i::fill(-1);
    let key = indexer.chunk_key_containing_point(p);
    assert_eq!(key, Point3i::fill(-16));
}

#[test]
fn chunk_key_rounds_down_on_every_axis() {
    let indexer = ChunkIndexer::new(Point3i::new(4, 8, 2));
    assert_eq!(
        indexer.chunk_key_containing_point(Point3i::new(5, 9, 3)),
        Point3i::new(4, 8, 2)
    );
    assert_eq!(
        indexer.chunk_key_containing_point(Point3i::new(-5, -9, -3)),
        Point3i::new(-8, -16, -4)
    );
    assert_eq!(
        indexer.chunk_key_containing_point(Point3i::new(0, 0, 0)),
        Point3i::new(0, 0, 0)
    );
}

#[test]
fn chunk_key_is_valid_accepts_only_aligned_keys() {
    let indexer = ChunkIndexer::new(Point3i::fill(16));
    assert!(indexer.chunk_key_is_valid(Point3i::new(-32, 0, 48)));
    assert!(!indexer.chunk_key_is_valid(Point3i::new(-32, 1, 48)));
    assert!(indexer.chunk_key_is_valid(Point3i::fill(0)));
    assert!(!indexer.chunk_key_is_valid(Point3i::fill(8)));
}

#[test]
fn extent_for_chunk_at_key_spans_one_chunk() {
    let indexer = ChunkIndexer::new(Point3i::fill(16));
    let e = indexer.extent_for_chunk_at_key(Point3i::new(-16, 0, 32));
    assert_eq!(e.minimum, Point3i::new(-16, 0, 32));
    assert_eq!(e.shape, Point3i::fill(16));
}

#[test]
fn every_point_of_an_extent_is_covered_by_a_returned_key() {
    let indexer = ChunkIndexer::new(Point3i::new(4, 4, 4));
    let query = Extent3i::from_min_and_shape(Point3i::new(-5, -5, -5), Point3i::fill(11));
    let keys = indexer.chunk_keys_for_extent(&query);
    for p in query.points() {
        let key = indexer.chunk_key_containing_point(p);
        assert!(keys.contains(&key));
    }
    for key in keys.iter() {
        let chunk_extent = indexer.extent_for_chunk_at_key(*key);
        let mut overlaps = false;
        for p in chunk_extent.points() {
            if query.contains(p) {
                overlaps = true;
            }
        }
        assert!(overlaps);
    }
}
