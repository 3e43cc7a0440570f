use voxel_chunks::array::Array3x1;
use voxel_chunks::compression::{
    BytesCompression, FastArrayCompression, FastChannelsCompression, FastCompressedChannel, Lz4,
    Snappy,
};
use voxel_chunks::extent::Extent3i;
use voxel_chunks::point::Point3i;

fn sphere_bit_array(side_length: i32, inner: u16, outer: u16) -> Array3x1<u16> {
    let extent = Extent3i::from_min_and_shape(Point3i::fill(0), Point3i::fill(side_length));
    let mut array = Array3x1::fill(extent, outer);
    let c = side_length / 2;
    let r2 = (side_length / 4) * (side_length / 4);
    for p in extent.points() {
        let dx = p.x - c;
        let dy = p.y - c;
        let dz = p.z - c;
        if dx * dx + dy * dy + dz * dz < r2 {
            array.set(p, inner);
        }
    }
    array
}

fn array_compression_rate<B: BytesCompression>(array: &Array3x1<u16>, bytes_compression: B) {
    let source_size_bytes = array.extent().num_points() * 2;

    let compression = FastArrayCompression::new(FastChannelsCompression::new(bytes_compression));
    let compressed_array = compression.compress(array);

    let compressed_size_bytes = compressed_array.compressed_channels().compressed_bytes().len();

    println!(
        "source = {} bytes, compressed = {} bytes; rate = {:.1}%",
        source_size_bytes,
        compressed_size_bytes,
        100.0 * (compressed_size_bytes as f32 / source_size_bytes as f32)
    );
}

fn homogeneous_array_compression_rate<B: BytesCompression>(compression: B, side_length: i32) {
    let extent = Extent3i::from_min_and_shape(Point3i::fill(0), Point3i::fill(side_length));
    let array = Array3x1::fill(extent, 0u16);
    array_compression_rate(&array, compression);
}

fn sphere_array_compression_rate<B: BytesCompression>(compression: B, side_length: i32) {
    let array = sphere_bit_array(side_length, 1u16, 0u16);
    array_compression_rate(&array, compression);
}

#[test]
fn sphere_array_compression_rate_snappy() {
    sphere_array_compression_rate(Snappy, 32);
    sphere_array_compression_rate(Snappy, 64);
    sphere_array_compression_rate(Snappy, 128);
}

#[test]
fn homogeneous_array_compression_rate_snappy() {
    homogeneous_array_compression_rate(Snappy, 32);
    homogeneous_array_compression_rate(Snappy, 64);
    homogeneous_array_compression_rate(Snappy, 128);
}

#[test]
fn sphere_array_compression_rate_lz4() {
    sphere_array_compression_rate(Lz4 { level: 10 }, 32);
    sphere_array_compression_rate(Lz4 { level: 10 }, 64);
    sphere_array_compression_rate(Lz4 { level: 10 }, 128);
}

#[test]
fn homogeneous_array_compression_rate_lz4() {
    homogeneous_array_compression_rate(Lz4 { level: 10 }, 32);
    homogeneous_array_compression_rate(Lz4 { level: 10 }, 64);
    homogeneous_array_compression_rate(Lz4 { level: 10 }, 10);
}

#[test]
fn channel_round_trips_with_snappy() {
    let codec = FastChannelsCompression::new(Snappy);
    let values: Vec<u16> = (0..1000u16).map(|i| i.wrapping_mul(31)).collect();
    let compressed = codec.compress(&values);
    let decompressed = codec.decompress(&compressed).unwrap();
    assert_eq!(values, decompressed);
}

#[test]
fn channel_round_trips_with_lz4() {
    let codec = FastChannelsCompression::new(Lz4 { level: 10 });
    let values: Vec<i32> = (0..1000i32).map(|i| i * -7 + 3).collect();
    let compressed = codec.compress(&values);
    let decompressed = codec.decompress(&compressed).unwrap();
    assert_eq!(values, decompressed);
}

#[test]
fn channel_of_bytes_round_trips() {
    let codec = FastChannelsCompression::new(Snappy);
    let values: Vec<u8> = (0..255u8).collect();
    let compressed = codec.compress(&values);
    let decompressed = codec.decompress(&compressed).unwrap();
    assert_eq!(values, decompressed);
}

#[test]
fn array_round_trips_for_both_algorithms() {
    let array = sphere_bit_array(16, 9u16, 4u16);

    let snappy = FastArrayCompression::new(FastChannelsCompression::new(Snappy));
    let back = snappy.decompress(&snappy.compress(&array)).unwrap();
    assert_eq!(back.extent(), array.extent());
    for p in array.extent().points() {
        assert_eq!(back.get(p), array.get(p));
    }

    let lz4 = FastArrayCompression::new(FastChannelsCompression::new(Lz4 { level: 10 }));
    let back = lz4.decompress(&lz4.compress(&array)).unwrap();
    assert_eq!(back.extent(), array.extent());
    for p in array.extent().points() {
        assert_eq!(back.get(p), array.get(p));
    }
}

#[test]
fn compression_shrinks_repetitive_channels() {
    // Would fail if the byte compressor handed its input back unchanged.
    let codec = FastChannelsCompression::new(Snappy);
    let values: Vec<u16> = vec![11u16; 4096];
    let compressed = codec.compress(&values);
    assert!(compressed.compressed_bytes().len() < 4096 * 2);

    let codec = FastChannelsCompression::new(Lz4 { level: 10 });
    let compressed = codec.compress(&values);
    assert!(compressed.compressed_bytes().len() < 4096 * 2);
}

#[test]
fn malformed_compressed_channels_are_rejected() {
    let codec: FastChannelsCompression<Snappy> = FastChannelsCompression::new(Snappy);
    let garbage: FastCompressedChannel<u16> = FastCompressedChannel {
        compressed_bytes: vec![255u8, 1, 2, 3, 4, 5, 6],
        decompressed_length: 3,
        marker: core::marker::PhantomData,
    };
    assert!(codec.decompress(&garbage).is_none());

    // A valid buffer whose recorded element count is wrong is rejected too.
    let values: Vec<u16> = vec![1, 2, 3, 4];
    let mut compressed = codec.compress(&values);
    compressed.decompressed_length = 3;
    assert!(codec.decompress(&compressed).is_none());
}
