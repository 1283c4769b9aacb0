//! Mesh compression: quantized vertices, delta encoding of vertices and
//! indices, ZigZag/LEB128 variable-length indices and optional zlib.
//! Floating-point quantization happens before these functions are called:
//! the bounding box travels as the bit patterns of its `f32` corners.
//! Multi-byte fields are packed in this machine's byte order (or a chosen
//! one, through the `_in_order` functions).
use vstd::prelude::*;

verus! {

/// `std::io::Error`, as returned by the zlib streams.
#[verifier::external_type_specification]
#[verifier::external_body]
pub struct ExIoError(std::io::Error);

/// Size in bytes of a packed `CompressedHeader`.
pub const COMPRESSED_HEADER_SIZE: usize = 36;

/// Size in bytes of a packed `QuantizedVertex`.
pub const QUANTIZED_VERTEX_SIZE: usize = 12;

/// Compressed mesh header; `bbox_min` and `bbox_max` hold the bit patterns
/// of the bounding box's `f32` corners.
#[derive(Debug, Clone, Copy, PartialEq, Eq)]
pub struct CompressedHeader {
    pub vertex_count: u32,
    pub index_count: u32,
    pub position_bits: u8,
    pub normal_bits: u8,
    pub texcoord_bits: u8,
    pub flags: u8,
    pub bbox_min: [u32; 3],
    pub bbox_max: [u32; 3],
}

/// Quantized vertex data
#[derive(Debug, Clone, Copy, PartialEq, Eq)]
pub struct QuantizedVertex {
    pub position: [u16; 3],
    pub normal: [u8; 2],
    pub tex_coords: [u16; 2],
}

/// Mesh compression options
#[derive(Debug, Clone, Copy, PartialEq, Eq, Structural)]
pub struct CompressionOptions {
    pub position_bits: u8,
    pub normal_bits: u8,
    pub texcoord_bits: u8,
    pub use_delta_encoding: bool,
    pub use_zlib: bool,
    pub zlib_level: u32,
}

pub open spec fn default_compression_options() -> CompressionOptions {
    CompressionOptions {
        position_bits: 14,
        normal_bits: 10,
        texcoord_bits: 12,
        use_delta_encoding: true,
        use_zlib: true,
        zlib_level: 6,
    }
}

impl Default for CompressionOptions {
    fn default() -> (r: Self)
        ensures
            r == default_compression_options(),
    {
        Self {
            position_bits: 14,
            normal_bits: 10,
            texcoord_bits: 12,
            use_delta_encoding: true,
            use_zlib: true,
            zlib_level: 6,
        }
    }
}

/// Why a mesh could not be compressed or decompressed.
#[derive(Debug)]
pub enum MeshCompressionError {
    /// The zlib stream failed.
    Io(std::io::Error),
    /// The data is shorter than a header.
    InvalidData,
}

/// What flate2's `ZlibEncoder` produces for `data` at compression level
/// `level`, `None` when it fails.
pub uninterp spec fn zlib_deflated(data: Seq<u8>, level: u32) -> Option<Seq<u8>>;

/// What flate2's `ZlibDecoder` reads from `data`, `None` when it fails.
pub uninterp spec fn zlib_inflated(data: Seq<u8>) -> Option<Seq<u8>>;

/// Compresses `data` with flate2's `ZlibEncoder` into a `Vec<u8>` at
/// `Compression::new(level)`; the outcome, success or failure, is named
/// `zlib_deflated`. Levels above 10 trip a debug assertion in flate2.
#[verifier::external_body]
fn zlib_compress(data: &[u8], level: u32) -> (r: Result<Vec<u8>, std::io::Error>)
    requires
        level <= 10,
    ensures
        r matches Ok(v) ==> zlib_deflated(data@, level) == Some(v@),
        r is Err ==> zlib_deflated(data@, level) is None,
{
    let mut encoder = flate2::write::ZlibEncoder::new(Vec::new(), flate2::Compression::new(level));
    std::io::Write::write_all(&mut encoder, data)?;
    encoder.finish()
}

/// Decompresses `data` with flate2's `ZlibDecoder` and `read_to_end`; the
/// outcome is named `zlib_inflated`.
#[verifier::external_body]
fn zlib_decompress(data: &[u8]) -> (r: Result<Vec<u8>, std::io::Error>)
    ensures
        r matches Ok(v) ==> zlib_inflated(data@) == Some(v@),
        r is Err ==> zlib_inflated(data@) is None,
{
    let mut decoder = flate2::read::ZlibDecoder::new(data);
    let mut out = Vec::new();
    std::io::Read::read_to_end(&mut decoder, &mut out)?;
    Ok(out)
}

pub open spec fn u16_le(x: u16) -> Seq<u8> {
    seq![(x % 256) as u8, (x / 256) as u8]
}

pub open spec fn u32_le(x: u32) -> Seq<u8> {
    seq![(x % 256) as u8, ((x / 256) % 256) as u8, ((x / 65536) % 256) as u8, (x / 16777216) as u8]
}

pub open spec fn u16_be(x: u16) -> Seq<u8> {
    seq![(x / 256) as u8, (x % 256) as u8]
}

pub open spec fn u32_be(x: u32) -> Seq<u8> {
    seq![(x / 16777216) as u8, ((x / 65536) % 256) as u8, ((x / 256) % 256) as u8, (x % 256) as u8]
}

/// The bytes of `x`, least significant first when `little`, else most
/// significant first.
pub open spec fn u16_bytes(x: u16, little: bool) -> Seq<u8> {
    if little { u16_le(x) } else { u16_be(x) }
}

pub open spec fn u32_bytes(x: u32, little: bool) -> Seq<u8> {
    if little { u32_le(x) } else { u32_be(x) }
}

/// `u16::to_ne_bytes`: the memory representation of `x` in the target's
/// byte order. Claimed: the bytes are the little-endian or the big-endian
/// ones (the two orders Rust targets have); which of them is not stated.
#[verifier::external_body]
fn native_u16_bytes(x: u16) -> (r: [u8; 2])
    ensures
        r@ == u16_le(x) || r@ == u16_be(x),
{
    x.to_ne_bytes()
}

/// Whether this machine stores integers least significant byte first.
fn native_is_little_endian() -> (little: bool) {
    let probe = native_u16_bytes(1);
    probe[0] == 1
}

/// The packed header: counts, bit depths and flags, then the two corners.
pub open spec fn header_bytes(h: CompressedHeader, little: bool) -> Seq<u8> {
    u32_bytes(h.vertex_count, little) + u32_bytes(h.index_count, little) + seq![
        h.position_bits,
        h.normal_bits,
        h.texcoord_bits,
        h.flags,
    ] + u32_bytes(h.bbox_min[0], little) + u32_bytes(h.bbox_min[1], little) + u32_bytes(h.bbox_min[2], little)
        + u32_bytes(h.bbox_max[0], little) + u32_bytes(h.bbox_max[1], little) + u32_bytes(h.bbox_max[2], little)
}

/// A packed vertex: position, normal, then texture coordinates.
pub open spec fn vertex_bytes(v: QuantizedVertex, little: bool) -> Seq<u8> {
    u16_bytes(v.position[0], little) + u16_bytes(v.position[1], little) + u16_bytes(v.position[2], little) + seq![
        v.normal[0],
        v.normal[1],
    ] + u16_bytes(v.tex_coords[0], little) + u16_bytes(v.tex_coords[1], little)
}

pub open spec fn vertices_bytes(vs: Seq<QuantizedVertex>, little: bool) -> Seq<u8>
    decreases vs.len(),
{
    if vs.len() == 0 {
        Seq::empty()
    } else {
        vertices_bytes(vs.drop_last(), little) + vertex_bytes(vs.last(), little)
    }
}

/// ZigZag encoding: 0, -1, 1, -2, 2, ... become 0, 1, 2, 3, 4, ...
pub open spec fn zigzag(v: int) -> nat {
    if v >= 0 {
        (2 * v) as nat
    } else {
        (-2 * v - 1) as nat
    }
}

/// LEB128: seven bits per byte, least significant first, the high bit set
/// on every byte but the last.
pub open spec fn varint_bytes(v: nat) -> Seq<u8>
    decreases v,
{
    if v < 128 {
        seq![v as u8]
    } else {
        seq![(v % 128 + 128) as u8] + varint_bytes(v / 128)
    }
}

pub open spec fn indices_bytes(ds: Seq<i32>) -> Seq<u8>
    decreases ds.len(),
{
    if ds.len() == 0 {
        Seq::empty()
    } else {
        indices_bytes(ds.drop_last()) + varint_bytes(zigzag(ds.last() as int))
    }
}

/// A vertex minus the one before it, component by component, wrapping;
/// normals are kept as they are.
pub open spec fn vertex_delta(curr: QuantizedVertex, prev: QuantizedVertex) -> QuantizedVertex {
    QuantizedVertex {
        position: [
            curr.position[0].wrapping_sub(prev.position[0]),
            curr.position[1].wrapping_sub(prev.position[1]),
            curr.position[2].wrapping_sub(prev.position[2]),
        ],
        normal: curr.normal,
        tex_coords: [
            curr.tex_coords[0].wrapping_sub(prev.tex_coords[0]),
            curr.tex_coords[1].wrapping_sub(prev.tex_coords[1]),
        ],
    }
}

/// The first vertex as it is, then each vertex minus the one before it.
pub open spec fn delta_vertices(vs: Seq<QuantizedVertex>) -> Seq<QuantizedVertex> {
    Seq::new(vs.len(), |i: int| if i == 0 { vs[0] } else { vertex_delta(vs[i], vs[i - 1]) })
}

/// An index read as an `i32` (as `index as i32` does).
pub open spec fn index_as_i32(x: u32) -> int {
    if x <= 0x7fff_ffff {
        x as int
    } else {
        x - 0x1_0000_0000
    }
}

/// The difference of index `k` to the one before it (to 0 for the first).
pub open spec fn index_delta(idx: Seq<u32>, k: int) -> int {
    index_as_i32(idx[k]) - if k == 0 { 0 } else { index_as_i32(idx[k - 1]) }
}

/// Every difference fits an `i32` (else the subtraction overflows).
pub open spec fn index_deltas_fit(idx: Seq<u32>) -> bool {
    forall|k: int| 0 <= k < idx.len() ==> i32::MIN <= #[trigger] index_delta(idx, k) <= i32::MAX
}

/// The header's flags: bit 0 for delta encoding, bit 1 for zlib.
pub open spec fn header_flags(o: CompressionOptions) -> u8 {
    ((if o.use_delta_encoding { 1int } else { 0int }) + (if o.use_zlib { 2int } else { 0int })) as u8
}

/// The header written for a mesh of `nv` vertices and `ni` indices (counts
/// cut to 32 bits) under options `o`.
pub open spec fn header_of(o: CompressionOptions, nv: usize, ni: usize, bbox_min: [u32; 3], bbox_max: [u32; 3]) -> CompressedHeader {
    CompressedHeader {
        vertex_count: nv as u32,
        index_count: ni as u32,
        position_bits: o.position_bits,
        normal_bits: o.normal_bits,
        texcoord_bits: o.texcoord_bits,
        flags: header_flags(o),
        bbox_min,
        bbox_max,
    }
}

/// The data of a mesh before zlib: header, vertices (delta encoded when the
/// options say so) and ZigZag varints of the index deltas; the header's and
/// vertices' numbers in the given byte order.
pub open spec fn packed_mesh(
    o: CompressionOptions,
    h: CompressedHeader,
    vs: Seq<QuantizedVertex>,
    idx: Seq<u32>,
    little: bool,
) -> Seq<u8> {
    header_bytes(h, little) + vertices_bytes(if o.use_delta_encoding { delta_vertices(vs) } else { vs }, little) + indices_bytes(
        Seq::new(idx.len(), |k: int| index_delta(idx, k) as i32),
    )
}

fn push_u16(buf: &mut Vec<u8>, x: u16, little: bool)
    ensures
        final(buf)@ == old(buf)@ + u16_bytes(x, little),
{
    if little {
        buf.push((x % 256) as u8);
        buf.push((x / 256) as u8);
    } else {
        buf.push((x / 256) as u8);
        buf.push((x % 256) as u8);
    }
    proof {
        assert(final(buf)@ =~= old(buf)@ + u16_bytes(x, little));
    }
}

fn push_u32(buf: &mut Vec<u8>, x: u32, little: bool)
    ensures
        final(buf)@ == old(buf)@ + u32_bytes(x, little),
{
    if little {
        buf.push((x % 256) as u8);
        buf.push(((x / 256) % 256) as u8);
        buf.push(((x / 65536) % 256) as u8);
        buf.push((x / 16777216) as u8);
    } else {
        buf.push((x / 16777216) as u8);
        buf.push(((x / 65536) % 256) as u8);
        buf.push(((x / 256) % 256) as u8);
        buf.push((x % 256) as u8);
    }
    proof {
        assert(final(buf)@ =~= old(buf)@ + u32_bytes(x, little));
    }
}

fn push_header(buf: &mut Vec<u8>, h: &CompressedHeader, little: bool)
    ensures
        final(buf)@ == old(buf)@ + header_bytes(*h, little),
{
    let ghost start = buf@;
    push_u32(buf, h.vertex_count, little);
    push_u32(buf, h.index_count, little);
    buf.push(h.position_bits);
    buf.push(h.normal_bits);
    buf.push(h.texcoord_bits);
    buf.push(h.flags);
    push_u32(buf, h.bbox_min[0], little);
    push_u32(buf, h.bbox_min[1], little);
    push_u32(buf, h.bbox_min[2], little);
    push_u32(buf, h.bbox_max[0], little);
    push_u32(buf, h.bbox_max[1], little);
    push_u32(buf, h.bbox_max[2], little);
    proof {
        assert(buf@ =~= start + header_bytes(*h, little));
    }
}

fn push_vertex(buf: &mut Vec<u8>, v: &QuantizedVertex, little: bool)
    ensures
        final(buf)@ == old(buf)@ + vertex_bytes(*v, little),
{
    let ghost start = buf@;
    push_u16(buf, v.position[0], little);
    push_u16(buf, v.position[1], little);
    push_u16(buf, v.position[2], little);
    buf.push(v.normal[0]);
    buf.push(v.normal[1]);
    push_u16(buf, v.tex_coords[0], little);
    push_u16(buf, v.tex_coords[1], little);
    proof {
        assert(buf@ =~= start + vertex_bytes(*v, little));
    }
}

/// `r` is what compressing `vertices` and `indices` with options `o` gives
/// in the given byte order: the packed data, or its zlib stream when the
/// options say so (zlib alone can fail, with an I/O error).
pub open spec fn compressed_as(
    o: CompressionOptions,
    vertices: Seq<QuantizedVertex>,
    indices: Seq<u32>,
    bbox_min: [u32; 3],
    bbox_max: [u32; 3],
    little: bool,
    r: Result<Vec<u8>, MeshCompressionError>,
) -> bool {
    let packed = packed_mesh(
        o,
        header_of(o, vertices.len() as usize, indices.len() as usize, bbox_min, bbox_max),
        vertices,
        indices,
        little,
    );
    &&& !o.use_zlib ==> (r matches Ok(v) && v@ == packed)
    &&& o.use_zlib ==> (r matches Ok(v) ==> zlib_deflated(packed, o.zlib_level) == Some(v@))
    &&& o.use_zlib ==> (r is Err <==> zlib_deflated(packed, o.zlib_level) is None)
    &&& r matches Err(e) ==> o.use_zlib && e is Io
}

/// Mesh compressor
pub struct MeshCompressor {
    options: CompressionOptions,
}

impl MeshCompressor {
    pub closed spec fn spec_options(&self) -> CompressionOptions {
        self.options
    }

    pub fn new(options: CompressionOptions) -> (c: Self)
        ensures
            c.spec_options() == options,
    {
        Self { options }
    }

    /// The header for a mesh with `vertex_count` vertices, `index_count`
    /// indices and the given bounding box.
    pub fn header(&self, vertex_count: usize, index_count: usize, bbox_min: [u32; 3], bbox_max: [u32; 3]) -> (h:
        CompressedHeader)
        ensures
            h == header_of(self.spec_options(), vertex_count, index_count, bbox_min, bbox_max),
    {
        let delta: u8 = if self.options.use_delta_encoding { 1 } else { 0 };
        let zlib: u8 = if self.options.use_zlib { 2 } else { 0 };
        CompressedHeader {
            vertex_count: vertex_count as u32,
            index_count: index_count as u32,
            position_bits: self.options.position_bits,
            normal_bits: self.options.normal_bits,
            texcoord_bits: self.options.texcoord_bits,
            flags: delta + zlib,
            bbox_min,
            bbox_max,
        }
    }

    /// Apply delta encoding to vertices
    pub fn delta_encode_vertices(&self, vertices: &[QuantizedVertex]) -> (r: Vec<QuantizedVertex>)
        ensures
            r@ == delta_vertices(vertices@),
    {
        let mut encoded: Vec<QuantizedVertex> = Vec::new();
        let n = vertices.len();
        let mut i: usize = 0;
        while i < n
            invariant
                n == vertices@.len(),
                i <= n,
                encoded@ == delta_vertices(vertices@).take(i as int),
            decreases n - i,
        {
            let curr = vertices[i];
            let v = if i == 0 {
                curr
            } else {
                let prev = vertices[i - 1];
                QuantizedVertex {
                    position: [
                        curr.position[0].wrapping_sub(prev.position[0]),
                        curr.position[1].wrapping_sub(prev.position[1]),
                        curr.position[2].wrapping_sub(prev.position[2]),
                    ],
                    normal: curr.normal,
                    tex_coords: [
                        curr.tex_coords[0].wrapping_sub(prev.tex_coords[0]),
                        curr.tex_coords[1].wrapping_sub(prev.tex_coords[1]),
                    ],
                }
            };
            encoded.push(v);
            proof {
                assert(delta_vertices(vertices@).take(i + 1) =~= delta_vertices(vertices@).take(i as int).push(v));
            }
            i = i + 1;
        }
        proof {
            assert(delta_vertices(vertices@).take(i as int) =~= delta_vertices(vertices@));
        }
        encoded
    }

    /// Apply delta encoding to indices
    pub fn delta_encode_indices(&self, indices: &[u32]) -> (r: Vec<i32>)
        requires
            index_deltas_fit(indices@),
        ensures
            r@.len() == indices@.len(),
            forall|k: int| 0 <= k < indices@.len() ==> r@[k] == #[trigger] index_delta(indices@, k),
    {
        let mut encoded: Vec<i32> = Vec::new();
        let mut last: i64 = 0;
        let n = indices.len();
        let mut k: usize = 0;
        while k < n
            invariant
                n == indices@.len(),
                k <= n,
                index_deltas_fit(indices@),
                encoded@.len() == k,
                forall|j: int| 0 <= j < k ==> encoded@[j] == #[trigger] index_delta(indices@, j),
                last == (if k == 0 { 0 } else { index_as_i32(indices@[k - 1]) }),
            decreases n - k,
        {
            let index = indices[k];
            let signed: i64 = if index <= 0x7fff_ffff { index as i64 } else { index as i64 - 0x1_0000_0000 };
            proof {
                assert(i32::MIN <= index_delta(indices@, k as int) <= i32::MAX);
            }
            let delta: i64 = signed - last;
            encoded.push(delta as i32);
            last = signed;
            k = k + 1;
        }
        encoded
    }

    /// Write variable-length integer (ZigZag, then LEB128): one to five
    /// bytes, the high bit set on all but the last, that decode back to
    /// `value`.
    pub fn write_varint(&self, buffer: &mut Vec<u8>, value: i32)
        ensures
            final(buffer)@ == old(buffer)@ + varint_bytes(zigzag(value as int)),
            ({
                let e = final(buffer)@.skip(old(buffer)@.len() as int);
                &&& 1 <= e.len() <= 5
                &&& forall|k: int| 0 <= k < e.len() - 1 ==> #[trigger] e[k] >= 128
                &&& e[e.len() - 1] < 128
                &&& unzigzag(leb128_value(e)) == value
            }),
    {
        proof {
            lemma_varint_lossless(value as int);
            lemma_varint_i32_len(value);
        }
        let v: i64 = value as i64;
        assert(i32::MIN <= v <= i32::MAX);
        let mut val: u32 = if v >= 0 {
            (2 * v) as u32
        } else {
            let neg: i64 = 0 - v;
            (2 * neg - 1) as u32
        };
        let ghost start = buffer@;
        let ghost total = zigzag(value as int);
        proof {
            assert(val == total);
        }
        while val >= 0x80
            invariant
                start + varint_bytes(total) == buffer@ + varint_bytes(val as nat),
            decreases val,
        {
            let ghost before = buffer@;
            buffer.push((val % 128 + 128) as u8);
            proof {
                assert(varint_bytes(val as nat) == seq![(val % 128 + 128) as u8] + varint_bytes((val / 128) as nat));
                assert(before + varint_bytes(val as nat) =~= buffer@ + varint_bytes((val / 128) as nat));
            }
            val = val / 128;
        }
        buffer.push(val as u8);
        proof {
            assert(varint_bytes(val as nat) == seq![val as u8]);
            assert(start + varint_bytes(total) =~= buffer@);
            assert(buffer@.skip(start.len() as int) =~= varint_bytes(total));
        }
    }

    /// The mesh data before zlib: header, vertices (delta encoded when the
    /// options say so) and the index deltas as ZigZag varints, with numbers
    /// in this machine's byte order (see `pack_in_order`).
    pub fn pack(&self, header: &CompressedHeader, vertices: &[QuantizedVertex], indices: &[u32]) -> (r: Vec<u8>)
        requires
            index_deltas_fit(indices@),
        ensures
            exists|little: bool| r@ == packed_mesh(self.spec_options(), *header, vertices@, indices@, little),
    {
        let little = native_is_little_endian();
        self.pack_in_order(header, vertices, indices, little)
    }

    /// The mesh data before zlib with the header's and vertices' numbers
    /// least significant byte first when `little`, else most significant
    /// byte first.
    pub fn pack_in_order(
        &self,
        header: &CompressedHeader,
        vertices: &[QuantizedVertex],
        indices: &[u32],
        little: bool,
    ) -> (r: Vec<u8>)
        requires
            index_deltas_fit(indices@),
        ensures
            r@ == packed_mesh(self.spec_options(), *header, vertices@, indices@, little),
    {
        let mut packed: Vec<u8> = Vec::new();
        push_header(&mut packed, header, little);
        let encoded = if self.options.use_delta_encoding {
            self.delta_encode_vertices(vertices)
        } else {
            let mut copy: Vec<QuantizedVertex> = Vec::new();
            let mut i: usize = 0;
            while i < vertices.len()
                invariant
                    i <= vertices@.len(),
                    copy@ == vertices@.take(i as int),
                decreases vertices@.len() - i,
            {
                copy.push(vertices[i]);
                proof {
                    assert(vertices@.take(i + 1) =~= vertices@.take(i as int).push(vertices@[i as int]));
                }
                i = i + 1;
            }
            proof {
                assert(vertices@.take(i as int) =~= vertices@);
            }
            copy
        };
        let ghost vs = encoded@;
        let ghost after_header = packed@;
        let mut i: usize = 0;
        while i < encoded.len()
            invariant
                i <= encoded@.len(),
                vs == encoded@,
                packed@ == after_header + vertices_bytes(vs.take(i as int), little),
            decreases encoded@.len() - i,
        {
            push_vertex(&mut packed, &encoded[i], little);
            proof {
                assert(vs.take(i + 1).drop_last() =~= vs.take(i as int));
                assert(packed@ =~= after_header + vertices_bytes(vs.take(i + 1), little));
            }
            i = i + 1;
        }
        proof {
            assert(vs.take(i as int) =~= vs);
        }
        let deltas = self.delta_encode_indices(indices);
        let ghost ds = Seq::new(indices@.len(), |k: int| index_delta(indices@, k) as i32);
        proof {
            assert(deltas@ =~= ds);
        }
        let ghost after_vertices = packed@;
        let mut k: usize = 0;
        while k < deltas.len()
            invariant
                k <= deltas@.len(),
                deltas@ == ds,
                packed@ == after_vertices + indices_bytes(ds.take(k as int)),
            decreases deltas@.len() - k,
        {
            self.write_varint(&mut packed, deltas[k]);
            proof {
                assert(ds.take(k + 1).drop_last() =~= ds.take(k as int));
                assert(packed@ =~= after_vertices + indices_bytes(ds.take(k + 1)));
            }
            k = k + 1;
        }
        proof {
            assert(ds.take(k as int) =~= ds);
            assert(packed@ =~= after_header + vertices_bytes(vs, little) + indices_bytes(ds));
        }
        packed
    }

    /// Compresses quantized mesh data: the packed header, vertices and
    /// indices, through zlib when the options say so, with numbers in this
    /// machine's byte order (see `compress_quantized_in_order`). The
    /// bounding box is given as the bit patterns of its `f32` corners.
    pub fn compress_quantized(
        &self,
        vertices: &[QuantizedVertex],
        indices: &[u32],
        bbox_min: [u32; 3],
        bbox_max: [u32; 3],
    ) -> (r: Result<Vec<u8>, MeshCompressionError>)
        requires
            index_deltas_fit(indices@),
            self.spec_options().use_zlib ==> self.spec_options().zlib_level <= 10,
        ensures
            exists|little: bool| compressed_as(self.spec_options(), vertices@, indices@, bbox_min, bbox_max, little, r),
    {
        let little = native_is_little_endian();
        self.compress_quantized_in_order(vertices, indices, bbox_min, bbox_max, little)
    }

    /// Compresses quantized mesh data with numbers least significant byte
    /// first when `little`, else most significant byte first.
    pub fn compress_quantized_in_order(
        &self,
        vertices: &[QuantizedVertex],
        indices: &[u32],
        bbox_min: [u32; 3],
        bbox_max: [u32; 3],
        little: bool,
    ) -> (r: Result<Vec<u8>, MeshCompressionError>)
        requires
            index_deltas_fit(indices@),
            self.spec_options().use_zlib ==> self.spec_options().zlib_level <= 10,
        ensures
            compressed_as(self.spec_options(), vertices@, indices@, bbox_min, bbox_max, little, r),
    {
        let header = self.header(vertices.len(), indices.len(), bbox_min, bbox_max);
        let packed = self.pack_in_order(&header, vertices, indices, little);
        if self.options.use_zlib {
            match zlib_compress(packed.as_slice(), self.options.zlib_level) {
                Ok(v) => Ok(v),
                Err(e) => Err(MeshCompressionError::Io(e)),
            }
        } else {
            Ok(packed)
        }
    }
}

/// Mesh decompressor
pub struct MeshDecompressor;

/// Data starting with a zlib header (0x78, then 0x9C or 0xDA).
pub open spec fn looks_zlib(d: Seq<u8>) -> bool {
    d.len() > 2 && d[0] == 0x78 && (d[1] == 0x9C || d[1] == 0xDA)
}

impl MeshDecompressor {
    /// Decompress mesh data. Vertex and index decoding is not implemented:
    /// a successful decompression yields no vertices and no indices.
    pub fn decompress(compressed_data: &[u8]) -> (r: Result<(Vec<QuantizedVertex>, Vec<u32>), MeshCompressionError>)
        ensures
            looks_zlib(compressed_data@) && zlib_inflated(compressed_data@) is None ==> r matches Err(
                MeshCompressionError::Io(_),
            ),
            looks_zlib(compressed_data@) && zlib_inflated(compressed_data@) is Some ==> (if zlib_inflated(
                compressed_data@,
            )->0.len() < COMPRESSED_HEADER_SIZE {
                r matches Err(MeshCompressionError::InvalidData)
            } else {
                r matches Ok((vs, is)) && vs@.len() == 0 && is@.len() == 0
            }),
            !looks_zlib(compressed_data@) ==> (if compressed_data@.len() < COMPRESSED_HEADER_SIZE {
                r matches Err(MeshCompressionError::InvalidData)
            } else {
                r matches Ok((vs, is)) && vs@.len() == 0 && is@.len() == 0
            }),
    {
        let is_zlib = compressed_data.len() > 2 && compressed_data[0] == 0x78 && (compressed_data[1] == 0x9C
            || compressed_data[1] == 0xDA);
        let len = if is_zlib {
            match zlib_decompress(compressed_data) {
                Ok(d) => d.len(),
                Err(e) => {
                    return Err(MeshCompressionError::Io(e));
                },
            }
        } else {
            compressed_data.len()
        };
        if len < COMPRESSED_HEADER_SIZE {
            return Err(MeshCompressionError::InvalidData);
        }
        Ok((Vec::new(), Vec::new()))
    }
}

/// The vertices that `deltas` encode: each delta added, wrapping, to the
/// vertex before it; normals are taken as they are.
pub open spec fn undelta_vertices(deltas: Seq<QuantizedVertex>) -> Seq<QuantizedVertex>
    decreases deltas.len(),
{
    if deltas.len() <= 1 {
        deltas
    } else {
        let prev = undelta_vertices(deltas.drop_last());
        let d = deltas.last();
        let p = prev.last();
        prev.push(
            QuantizedVertex {
                position: [
                    d.position[0].wrapping_add(p.position[0]),
                    d.position[1].wrapping_add(p.position[1]),
                    d.position[2].wrapping_add(p.position[2]),
                ],
                normal: d.normal,
                tex_coords: [
                    d.tex_coords[0].wrapping_add(p.tex_coords[0]),
                    d.tex_coords[1].wrapping_add(p.tex_coords[1]),
                ],
            },
        )
    }
}

/// Delta encoding of vertices loses nothing: adding the deltas back up
/// gives the original vertices.
pub proof fn lemma_delta_vertices_lossless(vs: Seq<QuantizedVertex>)
    ensures
        undelta_vertices(delta_vertices(vs)) == vs,
    decreases vs.len(),
{
    if vs.len() > 1 {
        let n = vs.len() - 1;
        let init = vs.drop_last();
        assert(delta_vertices(vs).drop_last() =~= delta_vertices(init));
        lemma_delta_vertices_lossless(init);
        let d = delta_vertices(vs).last();
        let p = vs[n - 1];
        assert(undelta_vertices(delta_vertices(init)).last() == p);
        let r = undelta_vertices(delta_vertices(vs)).last();
        assert(r.position[0] == vs[n].position[0]);
        assert(r.position[1] == vs[n].position[1]);
        assert(r.position[2] == vs[n].position[2]);
        assert(r.tex_coords[0] == vs[n].tex_coords[0]);
        assert(r.tex_coords[1] == vs[n].tex_coords[1]);
        assert(r.position =~= vs[n].position);
        assert(r.tex_coords =~= vs[n].tex_coords);
        assert(undelta_vertices(delta_vertices(vs)) =~= vs);
    } else if vs.len() == 1 {
        assert(delta_vertices(vs) =~= vs);
    } else {
        assert(delta_vertices(vs) =~= vs);
    }
}

/// The number LEB128 bytes stand for: seven bits per byte, least
/// significant first.
pub open spec fn leb128_value(bytes: Seq<u8>) -> nat
    decreases bytes.len(),
{
    if bytes.len() == 0 {
        0
    } else {
        (bytes[0] % 128) as nat + 128 * leb128_value(bytes.skip(1))
    }
}

/// The integer a ZigZag code stands for.
pub open spec fn unzigzag(z: nat) -> int {
    if z % 2 == 0 {
        (z / 2) as int
    } else {
        -((z + 1) / 2) as int
    }
}

/// `128` to the power `k`.
pub open spec fn pow128(k: nat) -> nat
    decreases k,
{
    if k == 0 {
        1
    } else {
        128 * pow128((k - 1) as nat)
    }
}

/// A number below `128^k` takes at most `k` LEB128 bytes.
pub proof fn lemma_varint_len(n: nat, k: nat)
    requires
        1 <= k,
        n < pow128(k),
    ensures
        1 <= varint_bytes(n).len() <= k,
    decreases k,
{
    if n >= 128 {
        if k == 1 {
            assert(pow128(1) == 128 * pow128(0));
        } else {
            assert(pow128(k) == 128 * pow128((k - 1) as nat));
            assert(n / 128 < pow128((k - 1) as nat)) by (nonlinear_arith)
                requires n < 128 * pow128((k - 1) as nat);
            lemma_varint_len(n / 128, (k - 1) as nat);
        }
    }
}

/// The varint of an `i32` takes one to five bytes.
pub proof fn lemma_varint_i32_len(v: i32)
    ensures
        1 <= varint_bytes(zigzag(v as int)).len() <= 5,
{
    assert(pow128(5) == 34359738368) by {
        reveal_with_fuel(pow128, 6);
    }
    lemma_varint_len(zigzag(v as int), 5);
}

/// Variable-length indices lose nothing: only the last byte of a varint is
/// below 128, and its bytes stand for the ZigZag code of the value.
pub proof fn lemma_varint_lossless(v: int)
    ensures
        unzigzag(zigzag(v)) == v,
        leb128_value(varint_bytes(zigzag(v))) == zigzag(v),
        varint_bytes(zigzag(v)).last() < 128,
        forall|k: int| 0 <= k < varint_bytes(zigzag(v)).len() - 1 ==> varint_bytes(zigzag(v))[k] >= 128,
{
    lemma_leb128(zigzag(v));
}

proof fn lemma_leb128(n: nat)
    ensures
        leb128_value(varint_bytes(n)) == n,
        varint_bytes(n).len() >= 1,
        varint_bytes(n).last() < 128,
        forall|k: int| 0 <= k < varint_bytes(n).len() - 1 ==> varint_bytes(n)[k] >= 128,
    decreases n,
{
    if n >= 128 {
        lemma_leb128(n / 128);
        let rest = varint_bytes(n / 128);
        let all = varint_bytes(n);
        assert(all.skip(1) =~= rest);
        assert(all[0] == (n % 128 + 128) as u8);
        assert(all[0] as int == n % 128 + 128);
        assert(all[0] % 128 == n % 128);
        assert(n == 128 * (n / 128) + n % 128);
        assert(leb128_value(all) == (all[0] % 128) as nat + 128 * leb128_value(all.skip(1)));
        assert forall|k: int| 0 <= k < all.len() - 1 implies all[k] >= 128 by {
            if k > 0 {
                assert(all[k] == rest[k - 1]);
            }
        }
    } else {
        assert(varint_bytes(n).skip(1) =~= Seq::<u8>::empty());
        assert(varint_bytes(n)[0] as int == n);
        assert(leb128_value(varint_bytes(n)) == (varint_bytes(n)[0] % 128) as nat + 128 * leb128_value(
            varint_bytes(n).skip(1),
        ));
    }
}

/// The number two bytes stand for, least significant first when `little`.
pub open spec fn u16_from(b: Seq<u8>, little: bool) -> u16 {
    if little {
        (b[0] + 256 * b[1]) as u16
    } else {
        (b[1] + 256 * b[0]) as u16
    }
}

/// The vertex twelve packed bytes stand for.
pub open spec fn vertex_from(b: Seq<u8>, little: bool) -> QuantizedVertex {
    QuantizedVertex {
        position: [
            u16_from(b.subrange(0, 2), little),
            u16_from(b.subrange(2, 4), little),
            u16_from(b.subrange(4, 6), little),
        ],
        normal: [b[6], b[7]],
        tex_coords: [u16_from(b.subrange(8, 10), little), u16_from(b.subrange(10, 12), little)],
    }
}

/// The `n` vertices packed one after another in `b`.
pub open spec fn vertices_from(b: Seq<u8>, n: nat, little: bool) -> Seq<QuantizedVertex> {
    Seq::new(n, |k: int| vertex_from(b.subrange(12 * k, 12 * k + 12), little))
}

proof fn lemma_u16_round_trip(x: u16, little: bool)
    ensures
        u16_bytes(x, little).len() == 2,
        u16_from(u16_bytes(x, little), little) == x,
{
    assert((x % 256) + 256 * (x / 256) == x);
}

proof fn lemma_vertex_round_trip(v: QuantizedVertex, little: bool)
    ensures
        vertex_bytes(v, little).len() == 12,
        vertex_from(vertex_bytes(v, little), little) == v,
{
    let b = vertex_bytes(v, little);
    lemma_u16_round_trip(v.position[0], little);
    lemma_u16_round_trip(v.position[1], little);
    lemma_u16_round_trip(v.position[2], little);
    lemma_u16_round_trip(v.tex_coords[0], little);
    lemma_u16_round_trip(v.tex_coords[1], little);
    assert(b.subrange(0, 2) =~= u16_bytes(v.position[0], little));
    assert(b.subrange(2, 4) =~= u16_bytes(v.position[1], little));
    assert(b.subrange(4, 6) =~= u16_bytes(v.position[2], little));
    assert(b.subrange(8, 10) =~= u16_bytes(v.tex_coords[0], little));
    assert(b.subrange(10, 12) =~= u16_bytes(v.tex_coords[1], little));
    let r = vertex_from(b, little);
    assert(r.position =~= v.position);
    assert(r.normal =~= v.normal);
    assert(r.tex_coords =~= v.tex_coords);
}

proof fn lemma_vertices_round_trip(ws: Seq<QuantizedVertex>, little: bool)
    ensures
        vertices_bytes(ws, little).len() == 12 * ws.len(),
        vertices_from(vertices_bytes(ws, little), ws.len(), little) == ws,
    decreases ws.len(),
{
    if ws.len() == 0 {
        assert(vertices_from(vertices_bytes(ws, little), 0, little) =~= ws);
    } else {
        let init = ws.drop_last();
        lemma_vertices_round_trip(init, little);
        lemma_vertex_round_trip(ws.last(), little);
        let a = vertices_bytes(init, little);
        let b = vertices_bytes(ws, little);
        assert(b == a + vertex_bytes(ws.last(), little));
        assert forall|k: int| 0 <= k < ws.len() implies #[trigger] vertices_from(b, ws.len(), little)[k] == ws[k] by {
            if k < init.len() {
                assert(b.subrange(12 * k, 12 * k + 12) =~= a.subrange(12 * k, 12 * k + 12));
                assert(vertices_from(a, init.len(), little)[k] == init[k]);
            } else {
                assert(b.subrange(12 * k, 12 * k + 12) =~= vertex_bytes(ws.last(), little));
            }
        }
        assert(vertices_from(b, ws.len(), little) =~= ws);
    }
}

proof fn lemma_header_layout(h: CompressedHeader, little: bool)
    ensures
        header_bytes(h, little).len() == 36,
        header_bytes(h, little)[11] == h.flags,
{
    let hb = header_bytes(h, little);
    let a = u32_bytes(h.vertex_count, little) + u32_bytes(h.index_count, little) + seq![
        h.position_bits,
        h.normal_bits,
        h.texcoord_bits,
        h.flags,
    ];
    assert(a.len() == 12);
    assert(a[11] == h.flags);
}

/// Packing keeps the vertices: reading the vertex section that follows the
/// header back, and adding the deltas back up exactly when the header's
/// flag byte has bit 0 set, gives the input vertices; that bit is set
/// exactly when the options ask for delta encoding.
#[verifier::rlimit(30)]
pub proof fn lemma_packed_vertices_round_trip(
    o: CompressionOptions,
    vs: Seq<QuantizedVertex>,
    idx: Seq<u32>,
    bbox_min: [u32; 3],
    bbox_max: [u32; 3],
    little: bool,
)
    requires
        vs.len() <= usize::MAX,
        idx.len() <= usize::MAX,
    ensures
        ({
            let p = packed_mesh(o, header_of(o, vs.len() as usize, idx.len() as usize, bbox_min, bbox_max), vs, idx, little);
            let raw = vertices_from(p.subrange(36, 36 + 12 * vs.len() as int), vs.len(), little);
            &&& p.len() >= 36 + 12 * vs.len()
            &&& (p[11] % 2 == 1 <==> o.use_delta_encoding)
            &&& p[11] % 2 == 1 ==> undelta_vertices(raw) == vs
            &&& p[11] % 2 == 0 ==> raw == vs
        }),
{
    let h = header_of(o, vs.len() as usize, idx.len() as usize, bbox_min, bbox_max);
    let hb = header_bytes(h, little);
    let enc = if o.use_delta_encoding { delta_vertices(vs) } else { vs };
    let vb = vertices_bytes(enc, little);
    let ib = indices_bytes(Seq::new(idx.len(), |k: int| index_delta(idx, k) as i32));
    let p = packed_mesh(o, h, vs, idx, little);
    assert(p == hb + vb + ib);
    lemma_header_layout(h, little);
    lemma_vertices_round_trip(enc, little);
    assert(enc.len() == vs.len());
    assert(p.subrange(36, 36 + 12 * vs.len() as int) == vb) by {
        assert(p.subrange(36, 36 + 12 * vs.len() as int) =~= vb);
    }
    assert(p[11] == header_flags(o)) by {
        assert(p[11] == hb[11]);
    }
    if o.use_delta_encoding {
        lemma_delta_vertices_lossless(vs);
    }
}

} // verus!
