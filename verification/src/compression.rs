use vstd::prelude::*;
use crate::extent::Extent3i;
use crate::array::Array3x1;
use crate::raw_bytes::{
    AsRawBytes, spec_channel_bytes, channel_to_raw_bytes, channel_from_raw_bytes,
    lemma_channel_bytes_injective,
};

verus! {

/// What the Snappy raw-block encoder produces for a byte string; it depends
/// on the input alone.
pub uninterp spec fn snappy_of(b: Seq<u8>) -> Seq<u8>;

/// What the Snappy raw-block decoder produces for a byte string; it depends
/// on the input alone.
pub uninterp spec fn unsnappy_of(b: Seq<u8>) -> Seq<u8>;

/// What the LZ4 block encoder produces at a compression level for a byte
/// string, with the uncompressed size prepended; it depends on the inputs
/// alone.
pub uninterp spec fn lz4_of(level: int, b: Seq<u8>) -> Seq<u8>;

/// What the LZ4 block decoder produces for a size-prefixed block; it depends
/// on the input alone.
pub uninterp spec fn unlz4_of(b: Seq<u8>) -> Seq<u8>;

/// Relies on snap's raw `Encoder::compress_vec`: a pure function of the
/// input bytes that only fails on inputs over the Snappy size limit, and
/// whose output the raw `Decoder` decompresses back to the input.
#[verifier::external_body]
fn snappy_compress(bytes: &Vec<u8>) -> (r: Vec<u8>)
    requires
        bytes@.len() < 0x4000_0000,
    ensures
        r@ == snappy_of(bytes@),
        unsnappy_of(r@) == bytes@,
{
    snap::raw::Encoder::new().compress_vec(bytes.as_slice()).unwrap()
}

/// Relies on snap's raw `Decoder::decompress_vec`: a pure function of the
/// input bytes that succeeds on every valid Snappy block and errors on
/// malformed input.
#[verifier::external_body]
fn snappy_decompress(compressed: &Vec<u8>) -> (r: Option<Vec<u8>>)
    ensures
        r matches Some(b) ==> b@ == unsnappy_of(compressed@),
        (exists|b: Seq<u8>| b.len() < 0x4000_0000 && compressed@ == #[trigger] snappy_of(b)) ==> r
            is Some,
{
    snap::raw::Decoder::new().decompress_vec(compressed.as_slice()).ok()
}

/// Relies on `lz4::block::compress` with a prepended size: a pure function
/// of level and input that only fails on inputs over `i32::MAX` bytes, and
/// whose output `lz4::block::decompress` decompresses back to the input.
#[verifier::external_body]
fn lz4_compress(level: u32, bytes: &Vec<u8>) -> (r: Vec<u8>)
    requires
        bytes@.len() < 0x4000_0000,
    ensures
        r@ == lz4_of(level as int, bytes@),
        unlz4_of(r@) == bytes@,
{
    lz4::block::compress(
        bytes.as_slice(),
        Some(lz4::block::CompressionMode::HIGHCOMPRESSION(level as i32)),
        true,
    ).unwrap()
}

/// Relies on `lz4::block::decompress` reading the prepended size: a pure
/// function of the input bytes that succeeds on every size-prefixed block
/// the encoder produced and errors on malformed input.
#[verifier::external_body]
fn lz4_decompress(compressed: &Vec<u8>) -> (r: Option<Vec<u8>>)
    ensures
        r matches Some(b) ==> b@ == unlz4_of(compressed@),
        (exists|lv: int, b: Seq<u8>|
            b.len() < 0x4000_0000 && compressed@ == #[trigger] lz4_of(lv, b)) ==> r is Some,
{
    lz4::block::decompress(compressed.as_slice(), None).ok()
}

/// A reversible byte-level compression algorithm.  Compressing never loses
/// data: decompressing what `compress_bytes` produced gives the input back.
pub trait BytesCompression: Sized + Copy {
    spec fn spec_compress(&self, b: Seq<u8>) -> Seq<u8>;

    spec fn spec_decompress(&self, b: Seq<u8>) -> Seq<u8>;

    fn compress_bytes(&self, bytes: &Vec<u8>) -> (r: Vec<u8>)
        requires
            bytes@.len() < 0x4000_0000,
        ensures
            r@ == self.spec_compress(bytes@),
            self.spec_decompress(r@) == bytes@,
    ;

    fn decompress_bytes(&self, compressed: &Vec<u8>) -> (r: Option<Vec<u8>>)
        ensures
            r matches Some(b) ==> b@ == self.spec_decompress(compressed@),
            (exists|b: Seq<u8>|
                b.len() < 0x4000_0000 && compressed@ == #[trigger] self.spec_compress(b)) ==> r
                is Some,
    ;
}

/// The Snappy raw block format.
#[derive(Clone, Copy, PartialEq, Eq, Structural)]
pub struct Snappy;

impl BytesCompression for Snappy {
    open spec fn spec_compress(&self, b: Seq<u8>) -> Seq<u8> {
        snappy_of(b)
    }

    open spec fn spec_decompress(&self, b: Seq<u8>) -> Seq<u8> {
        unsnappy_of(b)
    }

    fn compress_bytes(&self, bytes: &Vec<u8>) -> (r: Vec<u8>) {
        snappy_compress(bytes)
    }

    fn decompress_bytes(&self, compressed: &Vec<u8>) -> (r: Option<Vec<u8>>) {
        let r = snappy_decompress(compressed);
        proof {
            if exists|b: Seq<u8>|
                b.len() < 0x4000_0000 && compressed@ == #[trigger] self.spec_compress(b) {
                let b = choose|b: Seq<u8>|
                    b.len() < 0x4000_0000 && compressed@ == #[trigger] self.spec_compress(b);
                assert(compressed@ == snappy_of(b));
            }
        }
        r
    }
}

/// The LZ4 block format with a size prefix; `level` selects the encoder's
/// high-compression level.
#[derive(Clone, Copy, PartialEq, Eq, Structural)]
pub struct Lz4 {
    pub level: u32,
}

impl BytesCompression for Lz4 {
    open spec fn spec_compress(&self, b: Seq<u8>) -> Seq<u8> {
        lz4_of(self.level as int, b)
    }

    open spec fn spec_decompress(&self, b: Seq<u8>) -> Seq<u8> {
        unlz4_of(b)
    }

    fn compress_bytes(&self, bytes: &Vec<u8>) -> (r: Vec<u8>) {
        lz4_compress(self.level, bytes)
    }

    fn decompress_bytes(&self, compressed: &Vec<u8>) -> (r: Option<Vec<u8>>) {
        let r = lz4_decompress(compressed);
        proof {
            if exists|b: Seq<u8>|
                b.len() < 0x4000_0000 && compressed@ == #[trigger] self.spec_compress(b) {
                let b = choose|b: Seq<u8>|
                    b.len() < 0x4000_0000 && compressed@ == #[trigger] self.spec_compress(b);
                assert(compressed@ == lz4_of(self.level as int, b));
            }
        }
        r
    }
}

/// Compresses channels by feeding their raw byte image to a byte-compression
/// algorithm.  Fast, but the byte image is the in-memory layout: the result
/// is not portable across platforms.
#[derive(Clone, Copy, PartialEq, Eq, Structural)]
pub struct FastChannelsCompression<By> {
    pub bytes_compression: By,
}

/// A compressed channel: the compressed raw bytes and the element count
/// needed to rebuild the values.
pub struct FastCompressedChannel<T> {
    pub compressed_bytes: Vec<u8>,
    pub decompressed_length: usize,
    pub marker: core::marker::PhantomData<T>,
}

impl<T> FastCompressedChannel<T> {
    pub fn compressed_bytes(&self) -> (r: &Vec<u8>)
        ensures
            r == &self.compressed_bytes,
    {
        &self.compressed_bytes
    }
}

impl<By: BytesCompression> FastChannelsCompression<By> {
    pub fn new(bytes_compression: By) -> (r: Self)
        ensures
            r.bytes_compression == bytes_compression,
    {
        FastChannelsCompression { bytes_compression }
    }

    pub fn bytes_compression(&self) -> (r: &By)
        ensures
            r == &self.bytes_compression,
    {
        &self.bytes_compression
    }

    /// Build the channel codec straight from a byte-compression algorithm.
    pub fn from_bytes_compression(bytes_compression: By) -> (r: Self)
        ensures
            r.bytes_compression == bytes_compression,
    {
        FastChannelsCompression { bytes_compression }
    }

    /// Compress one channel of values into an opaque byte buffer plus the
    /// element count.
    pub fn compress<T: AsRawBytes>(&self, data: &Vec<T>) -> (r: FastCompressedChannel<T>)
        requires
            data@.len() * T::spec_width() < 0x4000_0000,
        ensures
            r.decompressed_length == data@.len(),
            r.compressed_bytes@ == self.bytes_compression.spec_compress(
                spec_channel_bytes(data@),
            ),
            self.bytes_compression.spec_decompress(r.compressed_bytes@) == spec_channel_bytes(
                data@,
            ),
    {
        let bytes = channel_to_raw_bytes(data);
        let compressed_bytes = self.bytes_compression.compress_bytes(&bytes);
        FastCompressedChannel {
            compressed_bytes,
            decompressed_length: data.len(),
            marker: core::marker::PhantomData,
        }
    }

    /// Decompress a channel back into its values.  Returns `None` only on a
    /// buffer that no matching `compress` call produced.
    pub fn decompress<T: AsRawBytes>(&self, compressed: &FastCompressedChannel<T>) -> (r: Option<
        Vec<T>,
    >)
        ensures
            r matches Some(v) ==> v@.len() == compressed.decompressed_length
                && spec_channel_bytes(v@) == self.bytes_compression.spec_decompress(
                compressed.compressed_bytes@,
            ),
            r matches Some(v) ==> forall|orig: Seq<T>|
                orig.len() == compressed.decompressed_length && #[trigger] spec_channel_bytes(orig)
                    == self.bytes_compression.spec_decompress(compressed.compressed_bytes@) ==> v@
                    == orig,
            ((exists|b: Seq<u8>|
                b.len() < 0x4000_0000 && compressed.compressed_bytes@
                    == #[trigger] self.bytes_compression.spec_compress(b))
                && self.bytes_compression.spec_decompress(compressed.compressed_bytes@).len()
                == compressed.decompressed_length * T::spec_width()) ==> r is Some,
    {
        let bytes = match self.bytes_compression.decompress_bytes(&compressed.compressed_bytes) {
            Some(b) => b,
            None => {
                return None;
            },
        };
        let _bytes_len: usize = bytes.len();
        match channel_from_raw_bytes::<T>(&bytes, compressed.decompressed_length) {
            Some(v) => {
                proof {
                    assert forall|orig: Seq<T>|
                        orig.len() == compressed.decompressed_length
                            && #[trigger] spec_channel_bytes(orig)
                            == self.bytes_compression.spec_decompress(
                            compressed.compressed_bytes@,
                        ) implies v@ == orig by {
                        lemma_channel_bytes_injective(v@, orig);
                    }
                }
                Some(v)
            },
            None => None,
        }
    }
}

/// Compresses whole dense chunks: the channel goes through
/// `FastChannelsCompression` and the extent is kept uncompressed beside it.
#[derive(Clone, Copy, PartialEq, Eq, Structural)]
pub struct FastArrayCompression<By> {
    pub channels_compression: FastChannelsCompression<By>,
}

/// A compressed chunk: the compressed channel plus the chunk's extent.
pub struct FastCompressedArray<T> {
    pub compressed_channels: FastCompressedChannel<T>,
    pub extent: Extent3i,
}

impl<T> FastCompressedArray<T> {
    pub fn compressed_channels(&self) -> (r: &FastCompressedChannel<T>)
        ensures
            r == &self.compressed_channels,
    {
        &self.compressed_channels
    }

    pub fn extent(&self) -> (r: Extent3i)
        ensures
            r == self.extent,
    {
        self.extent
    }

    pub fn into_parts(self) -> (r: (FastCompressedChannel<T>, Extent3i))
        ensures
            r.0 == self.compressed_channels,
            r.1 == self.extent,
    {
        (self.compressed_channels, self.extent)
    }
}

impl<By: BytesCompression> FastArrayCompression<By> {
    pub fn new(channels_compression: FastChannelsCompression<By>) -> (r: Self)
        ensures
            r.channels_compression == channels_compression,
    {
        FastArrayCompression { channels_compression }
    }

    pub fn channels_compression(&self) -> (r: &FastChannelsCompression<By>)
        ensures
            r == &self.channels_compression,
    {
        &self.channels_compression
    }

    /// Build the chunk codec straight from a byte-compression algorithm.
    pub fn from_bytes_compression(bytes_compression: By) -> (r: Self)
        ensures
            r.channels_compression.bytes_compression == bytes_compression,
    {
        FastArrayCompression {
            channels_compression: FastChannelsCompression { bytes_compression },
        }
    }

    /// Compress a chunk, keeping its extent uncompressed.
    pub fn compress<T: AsRawBytes>(&self, data: &Array3x1<T>) -> (r: FastCompressedArray<T>)
        requires
            data.wf(),
            data.values@.len() * T::spec_width() < 0x4000_0000,
        ensures
            r.extent == data.extent,
            r.compressed_channels.decompressed_length == data.values@.len(),
            self.channels_compression.bytes_compression.spec_decompress(
                r.compressed_channels.compressed_bytes@,
            ) == spec_channel_bytes(data.values@),
    {
        let compressed_channels = self.channels_compression.compress(&data.values);
        FastCompressedArray { compressed_channels, extent: data.extent }
    }

    /// Decompress a chunk.  Returns `None` only on a buffer that no matching
    /// `compress` call produced.
    pub fn decompress<T: AsRawBytes>(&self, compressed: &FastCompressedArray<T>) -> (r: Option<
        Array3x1<T>,
    >)
        requires
            compressed.extent.wf(),
            compressed.extent.volume() <= usize::MAX,
        ensures
            r matches Some(a) ==> {
                &&& a.wf()
                &&& a.extent == compressed.extent
                &&& a.values@.len() == compressed.compressed_channels.decompressed_length
                &&& spec_channel_bytes(a.values@)
                    == self.channels_compression.bytes_compression.spec_decompress(
                    compressed.compressed_channels.compressed_bytes@,
                )
            },
            r matches Some(a) ==> forall|orig: Seq<T>|
                orig.len() == compressed.compressed_channels.decompressed_length
                    && #[trigger] spec_channel_bytes(orig)
                    == self.channels_compression.bytes_compression.spec_decompress(
                    compressed.compressed_channels.compressed_bytes@,
                ) ==> a.values@ == orig,
            ((exists|b: Seq<u8>|
                b.len() < 0x4000_0000 && compressed.compressed_channels.compressed_bytes@
                    == #[trigger] self.channels_compression.bytes_compression.spec_compress(b))
                && self.channels_compression.bytes_compression.spec_decompress(
                compressed.compressed_channels.compressed_bytes@,
            ).len() == compressed.compressed_channels.decompressed_length * T::spec_width()
                && compressed.compressed_channels.decompressed_length
                == compressed.extent.volume()) ==> r is Some,
    {
        let values = match self.channels_compression.decompress(&compressed.compressed_channels) {
            Some(v) => v,
            None => {
                return None;
            },
        };
        let volume = compressed.extent.num_points();
        if values.len() != volume {
            return None;
        }
        Some(Array3x1::new(compressed.extent, values))
    }
}

/// Law: decompressing what `compress` produced gives the original channel
/// back.  The hypotheses are exactly what the `compress` and `decompress`
/// contracts state of their results.
pub proof fn lemma_channel_compression_round_trip<T: AsRawBytes>(
    data: Seq<T>,
    count: nat,
    decompressed_image: Seq<u8>,
    result: Seq<T>,
)
    requires
        count == data.len(),
        decompressed_image == spec_channel_bytes(data),
        result.len() == count,
        spec_channel_bytes(result) == decompressed_image,
    ensures
        result == data,
{
    lemma_channel_bytes_injective(result, data);
}

} // verus!
