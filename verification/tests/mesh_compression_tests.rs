use hearth_engine::mesh_compression::{
    CompressionOptions, MeshCompressionError, MeshCompressor, MeshDecompressor, QuantizedVertex,
    COMPRESSED_HEADER_SIZE,
};

fn options(delta: bool, zlib: bool) -> CompressionOptions {
    CompressionOptions { use_delta_encoding: delta, use_zlib: zlib, ..CompressionOptions::default() }
}

fn qv(p: [u16; 3], n: [u8; 2], t: [u16; 2]) -> QuantizedVertex {
    QuantizedVertex { position: p, normal: n, tex_coords: t }
}

#[test]
fn default_options() {
    let o = CompressionOptions::default();
    assert_eq!(o.position_bits, 14);
    assert_eq!(o.normal_bits, 10);
    assert_eq!(o.texcoord_bits, 12);
    assert!(o.use_delta_encoding);
    assert!(o.use_zlib);
    assert_eq!(o.zlib_level, 6);
}

#[test]
fn vertex_deltas_wrap_and_keep_normals() {
    let c = MeshCompressor::new(CompressionOptions::default());
    let vs = vec![qv([10, 20, 30], [1, 2], [5, 6]), qv([12, 15, 30], [3, 4], [4, 9])];
    let d = c.delta_encode_vertices(&vs);
    assert_eq!(d[0], vs[0]);
    assert_eq!(d[1], qv([2, 65531, 0], [3, 4], [65535, 3]));
    assert!(c.delta_encode_vertices(&[]).is_empty());
}

#[test]
fn index_deltas() {
    let c = MeshCompressor::new(CompressionOptions::default());
    assert_eq!(c.delta_encode_indices(&[0, 1, 2, 2, 1, 3]), vec![0, 1, 1, 0, -1, 2]);
    assert_eq!(c.delta_encode_indices(&[5]), vec![5]);
    assert!(c.delta_encode_indices(&[]).is_empty());
}

#[test]
fn varints_are_zigzag_leb128() {
    let c = MeshCompressor::new(CompressionOptions::default());
    let mut b = Vec::new();
    c.write_varint(&mut b, 0);
    c.write_varint(&mut b, -1);
    c.write_varint(&mut b, 1);
    c.write_varint(&mut b, 64);
    c.write_varint(&mut b, -65);
    c.write_varint(&mut b, 300);
    assert_eq!(b, vec![0, 1, 2, 0x80, 0x01, 0x81, 0x01, 0xD8, 0x04]);
    let mut m = Vec::new();
    c.write_varint(&mut m, i32::MIN);
    assert_eq!(m, vec![0xFF, 0xFF, 0xFF, 0xFF, 0x0F]);
}

#[test]
fn packed_layout_without_zlib() {
    let c = MeshCompressor::new(options(false, false));
    let vs = vec![qv([1, 2, 3], [4, 5], [6, 7])];
    let out = c.compress_quantized(&vs, &[0, 2], [1, 2, 3], [4, 5, 0x3F80_0000]).unwrap();
    // Numbers are in this machine's byte order.
    let mut expected = Vec::new();
    expected.extend_from_slice(&1u32.to_ne_bytes());
    expected.extend_from_slice(&2u32.to_ne_bytes());
    expected.extend_from_slice(&[14, 10, 12, 0]);
    for w in [1u32, 2, 3, 4, 5, 0x3F80_0000] {
        expected.extend_from_slice(&w.to_ne_bytes());
    }
    assert_eq!(expected.len(), COMPRESSED_HEADER_SIZE);
    for h in [1u16, 2, 3] {
        expected.extend_from_slice(&h.to_ne_bytes());
    }
    expected.extend_from_slice(&[4, 5]);
    for h in [6u16, 7] {
        expected.extend_from_slice(&h.to_ne_bytes());
    }
    expected.extend_from_slice(&[0, 4]);
    assert_eq!(out, expected);
}

#[test]
fn flags_record_delta_and_zlib() {
    let h = MeshCompressor::new(options(true, false)).header(3, 6, [0; 3], [0; 3]);
    assert_eq!(h.flags, 1);
    let h = MeshCompressor::new(options(true, true)).header(3, 6, [0; 3], [0; 3]);
    assert_eq!(h.flags, 3);
    assert_eq!(h.vertex_count, 3);
    assert_eq!(h.index_count, 6);
}

#[test]
fn zlib_output_decompresses() {
    let c = MeshCompressor::new(CompressionOptions::default());
    let vs = vec![qv([1, 2, 3], [4, 5], [6, 7]), qv([2, 2, 3], [4, 5], [6, 8])];
    let out = c.compress_quantized(&vs, &[0, 1, 2], [0; 3], [0; 3]).unwrap();
    assert_eq!(out[0], 0x78);
    assert_eq!(out[1], 0x9C);
    let plain = MeshCompressor::new(options(true, false)).compress_quantized(&vs, &[0, 1, 2], [0; 3], [0; 3]).unwrap();
    assert_ne!(out, plain);
    let (v, i) = MeshDecompressor::decompress(&out).unwrap();
    assert!(v.is_empty());
    assert!(i.is_empty());
}

#[test]
fn decompress_rejects_short_data() {
    assert!(matches!(MeshDecompressor::decompress(&[1, 2, 3]), Err(MeshCompressionError::InvalidData)));
    assert!(MeshDecompressor::decompress(&[0u8; 36]).is_ok());
    assert!(matches!(MeshDecompressor::decompress(&[0x78, 0x9C, 0xFF, 0x00]), Err(MeshCompressionError::Io(_))));
}

#[test]
fn packed_layout_in_either_byte_order() {
    let c = MeshCompressor::new(options(false, false));
    let vs = vec![qv([0x0102, 2, 3], [4, 5], [6, 7])];
    let big = c.compress_quantized_in_order(&vs, &[0], [0; 3], [0; 3], false).unwrap();
    let little = c.compress_quantized_in_order(&vs, &[0], [0; 3], [0; 3], true).unwrap();
    assert_eq!(&big[..4], &[0, 0, 0, 1]);
    assert_eq!(&little[..4], &[1, 0, 0, 0]);
    assert_eq!(&big[COMPRESSED_HEADER_SIZE..COMPRESSED_HEADER_SIZE + 2], &[0x01, 0x02]);
    assert_eq!(&little[COMPRESSED_HEADER_SIZE..COMPRESSED_HEADER_SIZE + 2], &[0x02, 0x01]);
    assert_eq!(big.len(), little.len());
    let native = c.compress_quantized(&vs, &[0], [0; 3], [0; 3]).unwrap();
    assert_eq!(native, if 1u16.to_ne_bytes()[0] == 1 { little } else { big });
}
