use metal_io::binding::{Binding, MTLArgumentAccess, MTLBinding, MTLBindingType, MTLBufferBinding};
use metal_io::codec::{accept_decoded, decode_chunk, encode_chunk};
use metal_io::container::{Container, EncodedChunk};
use metal_io::{
    HandleErrorKind, IOError, MTLIOCompressionMethod, MTLIOCompressionStatus, MTLIOFileHandle,
    MTLIOStatus,
};

fn repetitive() -> Vec<u8> {
    b"streaming into textures ".repeat(40)
}

#[test]
fn each_codec_compresses_and_restores() {
    let data = repetitive();
    for method in [
        MTLIOCompressionMethod::zlib,
        MTLIOCompressionMethod::lzfse,
        MTLIOCompressionMethod::lz4,
        MTLIOCompressionMethod::lzma,
    ] {
        let encoded = encode_chunk(method, &data).unwrap();
        assert_ne!(encoded, data, "{:?}", method);
        assert!(encoded.len() < data.len(), "{:?}", method);
        let decoded = decode_chunk(method, &encoded, data.len()).unwrap();
        assert_eq!(decoded, data, "{:?}", method);
        assert!(decode_chunk(method, &encoded, data.len() + 1).is_none(), "{:?}", method);
    }
    let stored = encode_chunk(MTLIOCompressionMethod::lzBitmap, &data).unwrap();
    assert_eq!(stored, data);
    assert_eq!(decode_chunk(MTLIOCompressionMethod::lzBitmap, &data, data.len()), Some(data.clone()));
    assert!(decode_chunk(MTLIOCompressionMethod::lzBitmap, &data, data.len() - 1).is_none());
}

#[test]
fn decoders_reject_garbage() {
    let garbage = vec![0xffu8; 40];
    for method in [
        MTLIOCompressionMethod::zlib,
        MTLIOCompressionMethod::lzfse,
        MTLIOCompressionMethod::lz4,
        MTLIOCompressionMethod::lzma,
    ] {
        assert!(decode_chunk(method, &garbage, 1000).is_none(), "{:?}", method);
    }
}

#[test]
fn container_layout() {
    let c = Container {
        method: MTLIOCompressionMethod::lz4,
        chunk_size: 256,
        chunks: vec![EncodedChunk { raw_len: 3, data: vec![7, 8] }],
    };
    let bytes = c.to_bytes();
    let mut want = vec![0x4d, 0x49, 0x4f, 0x43, 2];
    want.extend_from_slice(&256u64.to_le_bytes());
    want.extend_from_slice(&1u64.to_le_bytes());
    want.extend_from_slice(&3u64.to_le_bytes());
    want.extend_from_slice(&2u64.to_le_bytes());
    want.extend_from_slice(&[7, 8]);
    assert_eq!(bytes, want);
    let back = Container::parse(&bytes).unwrap();
    assert_eq!(back.method, MTLIOCompressionMethod::lz4);
    assert_eq!(back.chunk_size, 256);
    assert_eq!(back.chunks.len(), 1);
    assert_eq!((back.chunks[0].raw_len, back.chunks[0].data.clone()), (3, vec![7, 8]));
    let mut longer = bytes.clone();
    longer.push(0);
    assert!(Container::parse(&longer).is_none());
    let mut bad_method = bytes.clone();
    bad_method[4] = 9;
    assert!(Container::parse(&bad_method).is_none());
    assert!(Container::parse(&bytes[..20]).is_none());
}

#[test]
fn status_codes() {
    assert_eq!(MTLIOStatus::pending.raw(), 0);
    assert_eq!(MTLIOStatus::cancelled.raw(), 1);
    assert_eq!(MTLIOStatus::error.raw(), 2);
    assert_eq!(MTLIOStatus::complete.raw(), 3);
    assert_eq!(MTLIOStatus::from_raw(2), Some(MTLIOStatus::error));
    assert_eq!(MTLIOStatus::from_raw(4), None);
    assert!(!MTLIOStatus::pending.is_terminal());
    assert!(MTLIOStatus::cancelled.is_terminal());
    assert_eq!(MTLIOCompressionMethod::lzBitmap.raw(), 4);
    assert_eq!(MTLIOCompressionMethod::from_raw(2), Some(MTLIOCompressionMethod::lz4));
    assert_eq!(MTLIOCompressionMethod::from_raw(5), None);
    assert_eq!(MTLIOCompressionStatus::error.raw(), 1);
}

#[test]
fn binding_kinds() {
    assert_eq!(MTLBindingType::objectPayload.raw(), 34);
    assert_eq!(MTLBindingType::from_raw(25), Some(MTLBindingType::primitiveAccelerationStructure));
    assert_eq!(MTLBindingType::from_raw(4), None);
    let b = Binding::new(
        "vertices",
        3,
        MTLArgumentAccess::ReadOnly,
        true,
        true,
        true,
        MTLBinding::Buffer(MTLBufferBinding { alignment: 16, data_size: 64, data_type: 1 }),
    )
    .unwrap();
    assert_eq!(b.name(), "vertices");
    assert_eq!(b.index(), 3);
    assert_eq!(b.type_(), MTLBindingType::buffer);
    assert_eq!(b.as_buffer_binding().unwrap().buffer_data_size(), 64);
    assert!(b.as_texture_binding().is_none());
    let s = Binding::new(
        "s",
        0,
        MTLArgumentAccess::ReadOnly,
        false,
        false,
        false,
        MTLBinding::Other(MTLBindingType::sampler),
    )
    .unwrap();
    assert_eq!(s.type_(), MTLBindingType::sampler);
    assert!(s.as_buffer_binding().is_none());
    for kind in [MTLBindingType::buffer, MTLBindingType::texture] {
        let bare = Binding::new(
            "x",
            0,
            MTLArgumentAccess::ReadWrite,
            false,
            false,
            false,
            MTLBinding::Other(kind),
        );
        assert!(bare.is_none());
    }
}

#[test]
fn decoded_length_must_match() {
    assert_eq!(accept_decoded(Some(vec![1, 2, 3]), 3), Some(vec![1, 2, 3]));
    assert_eq!(accept_decoded(Some(vec![1, 2, 3]), 4), None);
    assert_eq!(accept_decoded(None, 0), None);
}

#[test]
fn terminal_status_outcomes() {
    assert_eq!(MTLIOStatus::pending.outcome(), None);
    assert_eq!(MTLIOStatus::complete.outcome(), Some(Ok(())));
    assert_eq!(MTLIOStatus::error.outcome(), Some(Err(IOError::TransferError)));
    assert_eq!(MTLIOStatus::cancelled.outcome(), Some(Err(IOError::Cancelled)));
}

#[test]
fn handle_from_decoded_chunks() {
    let container = Container {
        method: MTLIOCompressionMethod::zlib,
        chunk_size: 4,
        chunks: vec![
            EncodedChunk { raw_len: 4, data: vec![0xaa] },
            EncodedChunk { raw_len: 2, data: vec![0xbb] },
        ],
    };
    let ok = MTLIOFileHandle::from_decoded(
        MTLIOCompressionMethod::zlib,
        &container,
        vec![Some(vec![1, 2, 3, 4]), Some(vec![5, 6])],
    )
    .unwrap();
    assert_eq!(ok.content(), &[1, 2, 3, 4, 5, 6][..]);
    assert_eq!(ok.method(), MTLIOCompressionMethod::zlib);
    let format = Some(IOError::HandleError(HandleErrorKind::Format));
    let short = MTLIOFileHandle::from_decoded(
        MTLIOCompressionMethod::zlib,
        &container,
        vec![Some(vec![1, 2, 3, 4]), Some(vec![5])],
    );
    assert_eq!(short.err(), format);
    let failed = MTLIOFileHandle::from_decoded(
        MTLIOCompressionMethod::zlib,
        &container,
        vec![None, Some(vec![5, 6])],
    );
    assert_eq!(failed.err(), format);
    let missing = MTLIOFileHandle::from_decoded(
        MTLIOCompressionMethod::zlib,
        &container,
        vec![Some(vec![1, 2, 3, 4])],
    );
    assert_eq!(missing.err(), format);
    let oversized = Container {
        method: MTLIOCompressionMethod::zlib,
        chunk_size: 1,
        chunks: vec![EncodedChunk { raw_len: 2, data: vec![] }],
    };
    let r = MTLIOFileHandle::from_decoded(
        MTLIOCompressionMethod::zlib,
        &oversized,
        vec![Some(vec![1, 2])],
    );
    assert_eq!(r.err(), format);
}
