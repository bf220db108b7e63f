use metal_io::{
    BufferId, Device, HandleErrorKind, HandleId, IOCommandQueue, IOCommandQueueDescriptor,
    IOCompression, IOError, MTLIOCompressionMethod, MTLIOCompressionStatus, MTLIOFileHandle,
    MTLIOStatus, SourceReadError,
};

const ALL_METHODS: [MTLIOCompressionMethod; 5] = [
    MTLIOCompressionMethod::zlib,
    MTLIOCompressionMethod::lzfse,
    MTLIOCompressionMethod::lz4,
    MTLIOCompressionMethod::lzma,
    MTLIOCompressionMethod::lzBitmap,
];

fn compress(data: &[u8], method: MTLIOCompressionMethod, chunk_size: u64) -> Vec<u8> {
    let mut io = IOCompression::new("/tmp/container.bin", method, chunk_size).unwrap();
    io.append(data);
    let (status, bytes) = io.flush();
    assert_eq!(status, MTLIOCompressionStatus::complete);
    bytes
}

fn open(device: &mut Device, container: Vec<u8>, method: MTLIOCompressionMethod) -> HandleId {
    let handle = MTLIOFileHandle::open(Ok(container), method).unwrap();
    device.add_io_handle(handle)
}

fn read_into_buffer(data: &[u8], method: MTLIOCompressionMethod, chunk_size: u64) -> Vec<u8> {
    let container = compress(data, method, chunk_size);
    let mut device = Device::new();
    let buffer = device.new_buffer(data.len() as u64);
    let handle = open(&mut device, container, method);
    let queue = IOCommandQueue::new(&IOCommandQueueDescriptor::new()).unwrap();
    let mut cb = queue.new_command_buffer_with_unretained_references();
    cb.load_buffer(buffer, 0, data.len() as u64, handle, 0);
    cb.commit();
    cb.wait_until_completed(&mut device);
    assert_eq!(cb.status(), MTLIOStatus::complete);
    device.buffer_contents(buffer).unwrap().to_vec()
}

fn sample(len: usize, seed: u32) -> Vec<u8> {
    let mut x = seed.wrapping_mul(2654435761).wrapping_add(1);
    let mut out = Vec::with_capacity(len);
    for i in 0..len {
        x ^= x << 13;
        x ^= x >> 17;
        x ^= x << 5;
        out.push(if i % 3 == 0 { (x & 0xff) as u8 } else { (i / 7 % 251) as u8 });
    }
    out
}

#[test]
fn lz4_abcd_buffer_round_trip() {
    let data = "abcd".repeat(256).into_bytes();
    assert_eq!(data.len(), 1024);
    assert_eq!(read_into_buffer(&data, MTLIOCompressionMethod::lz4, 256), data);
}

#[test]
fn round_trip_every_method() {
    let data = sample(5000, 7);
    for method in ALL_METHODS {
        for chunk_size in [1u64, 100, 4096, 65536] {
            assert_eq!(read_into_buffer(&data, method, chunk_size), data, "{:?} {}", method, chunk_size);
        }
    }
}

#[test]
fn round_trip_empty_data() {
    for method in ALL_METHODS {
        let container = compress(&[], method, 16);
        let handle = MTLIOFileHandle::open(Ok(container), method).unwrap();
        assert!(handle.content().is_empty());
    }
}

#[test]
fn round_trip_across_many_appends() {
    let data = sample(3000, 3);
    let mut io = IOCompression::new("/tmp/parts.bin", MTLIOCompressionMethod::zlib, 257).unwrap();
    for part in data.chunks(91) {
        io.append(part);
    }
    let (status, bytes) = io.flush();
    assert_eq!(status, MTLIOCompressionStatus::complete);
    let handle = MTLIOFileHandle::open(Ok(bytes), MTLIOCompressionMethod::zlib).unwrap();
    assert_eq!(handle.content(), &data[..]);
}

#[test]
fn missing_source_is_not_found() {
    let r = MTLIOFileHandle::open(Err(SourceReadError::NotFound), MTLIOCompressionMethod::lz4);
    assert_eq!(r.err(), Some(IOError::HandleError(HandleErrorKind::NotFound)));
}

#[test]
fn unreadable_source_is_permission_error() {
    let r = MTLIOFileHandle::open(
        Err(SourceReadError::PermissionDenied),
        MTLIOCompressionMethod::lz4,
    );
    assert_eq!(r.err(), Some(IOError::HandleError(HandleErrorKind::PermissionDenied)));
    let r = MTLIOFileHandle::open(Err(SourceReadError::Other), MTLIOCompressionMethod::lz4);
    assert_eq!(r.err(), Some(IOError::PathError));
}

#[test]
fn method_mismatch_is_format_error() {
    let container = compress(b"hello hello hello", MTLIOCompressionMethod::lz4, 8);
    let r = MTLIOFileHandle::open(Ok(container), MTLIOCompressionMethod::zlib);
    assert_eq!(r.err(), Some(IOError::HandleError(HandleErrorKind::Format)));
}

#[test]
fn malformed_container_is_format_error() {
    let mut container = compress(b"some bytes to keep", MTLIOCompressionMethod::zlib, 8);
    container.pop();
    let r = MTLIOFileHandle::open(Ok(container), MTLIOCompressionMethod::zlib);
    assert_eq!(r.err(), Some(IOError::HandleError(HandleErrorKind::Format)));
    let r = MTLIOFileHandle::open(Ok(b"not a container".to_vec()), MTLIOCompressionMethod::zlib);
    assert_eq!(r.err(), Some(IOError::HandleError(HandleErrorKind::Format)));
}

#[test]
fn corrupted_chunk_is_format_error() {
    let mut container = compress(&sample(600, 1), MTLIOCompressionMethod::zlib, 200);
    let last = container.len() - 3;
    container[last] ^= 0xff;
    let r = MTLIOFileHandle::open(Ok(container), MTLIOCompressionMethod::zlib);
    assert_eq!(r.err(), Some(IOError::HandleError(HandleErrorKind::Format)));
}

#[test]
fn zero_chunk_size_is_config_error() {
    let r = IOCompression::new("/tmp/x.bin", MTLIOCompressionMethod::zlib, 0);
    assert_eq!(r.err(), Some(IOError::ConfigError));
    let r = IOCompression::new("", MTLIOCompressionMethod::zlib, 0);
    assert_eq!(r.err(), Some(IOError::ConfigError));
}

#[test]
fn every_method_opens_a_context() {
    for method in ALL_METHODS {
        let io = IOCompression::new("/tmp/x.bin", method, 1).unwrap();
        assert_eq!(io.method(), method);
    }
    let bitmap = compress(b"stored as it is", MTLIOCompressionMethod::lzBitmap, 4);
    let h = MTLIOFileHandle::open(Ok(bitmap), MTLIOCompressionMethod::lzBitmap).unwrap();
    assert_eq!(h.content(), b"stored as it is");
}

#[test]
fn container_without_chunks_opens_empty() {
    for method in ALL_METHODS {
        let container = compress(&[], method, 8);
        let h = MTLIOFileHandle::open(Ok(container), method).unwrap();
        assert!(h.content().is_empty());
    }
}

#[test]
fn bad_path_is_path_error() {
    let r = IOCompression::new("", MTLIOCompressionMethod::zlib, 64);
    assert_eq!(r.err(), Some(IOError::PathError));
    let r = IOCompression::new("a\0b", MTLIOCompressionMethod::zlib, 64);
    assert_eq!(r.err(), Some(IOError::PathError));
    let io = IOCompression::new("/tmp/ok.bin", MTLIOCompressionMethod::lz4, 64).unwrap();
    assert_eq!(io.path(), "/tmp/ok.bin");
    assert_eq!(io.chunk_size(), 64);
    assert_eq!(io.method(), MTLIOCompressionMethod::lz4);
}

#[test]
fn zero_queue_bound_is_config_error() {
    let mut d = IOCommandQueueDescriptor::new();
    d.set_max_command_buffer_count(0);
    assert_eq!(IOCommandQueue::new(&d).err(), Some(IOError::ConfigError));
    let mut d = IOCommandQueueDescriptor::new();
    d.set_max_commands_in_flight(0);
    assert_eq!(IOCommandQueue::new(&d).err(), Some(IOError::ConfigError));
    let mut d = IOCommandQueueDescriptor::new();
    d.set_max_command_buffer_count(6);
    d.set_max_commands_in_flight(1);
    let q = IOCommandQueue::new(&d).unwrap();
    assert_eq!(q.descriptor().max_command_buffer_count(), 6);
    assert_eq!(q.descriptor().max_commands_in_flight(), 1);
}

#[test]
fn default_configuration() {
    assert_eq!(IOCompression::default_chunk_size(), 65536);
    let d = IOCommandQueueDescriptor::new();
    assert_eq!(d.max_command_buffer_count(), 1);
    assert_eq!(d.max_commands_in_flight(), u64::MAX);
}

#[test]
fn loading_twice_gives_the_same_bytes() {
    let data = sample(2048, 11);
    let container = compress(&data, MTLIOCompressionMethod::lzfse, 512);
    let mut device = Device::new();
    let buffer = device.new_buffer(4096);
    let handle = open(&mut device, container, MTLIOCompressionMethod::lzfse);
    let queue = IOCommandQueue::new(&IOCommandQueueDescriptor::new()).unwrap();
    let mut results = vec![];
    for _ in 0..2 {
        let mut cb = queue.new_command_buffer();
        cb.load_buffer(buffer, 1000, 2048, handle, 0);
        cb.commit();
        cb.wait_until_completed(&mut device);
        assert_eq!(cb.status(), MTLIOStatus::complete);
        results.push(device.buffer_contents(buffer).unwrap().to_vec());
    }
    assert_eq!(results[0], results[1]);
    assert_eq!(&results[0][1000..3048], &data[..]);
    assert!(results[0][..1000].iter().all(|b| *b == 0));
    assert!(results[0][3048..].iter().all(|b| *b == 0));
}

#[test]
fn out_of_bounds_load_ends_in_error() {
    let data = sample(100, 5);
    let container = compress(&data, MTLIOCompressionMethod::lz4, 64);
    let mut device = Device::new();
    let small = device.new_buffer(50);
    let big = device.new_buffer(100);
    let handle = open(&mut device, container, MTLIOCompressionMethod::lz4);
    let queue = IOCommandQueue::new(&IOCommandQueueDescriptor::new()).unwrap();
    let mut cb = queue.new_command_buffer();
    cb.load_buffer(small, 0, 100, handle, 0);
    cb.load_buffer(big, 0, 100, handle, 0);
    cb.commit();
    cb.wait_until_completed(&mut device);
    assert_eq!(cb.status(), MTLIOStatus::error);
    assert!(device.buffer_contents(small).unwrap().iter().all(|b| *b == 0));
    assert_eq!(device.buffer_contents(big).unwrap(), &data[..]);
    let mut cb = queue.new_command_buffer();
    cb.load_buffer(big, 0, 10, handle, 95);
    cb.commit();
    cb.wait_until_completed(&mut device);
    assert_eq!(cb.status(), MTLIOStatus::error);
    let mut cb = queue.new_command_buffer();
    cb.load_buffer(BufferId { index: 9 }, 0, 1, handle, 0);
    cb.commit();
    cb.wait_until_completed(&mut device);
    assert_eq!(cb.status(), MTLIOStatus::error);
}

#[test]
fn command_buffer_lifecycle() {
    let data = sample(64, 2);
    let container = compress(&data, MTLIOCompressionMethod::lz4, 64);
    let mut device = Device::new();
    let buffer = device.new_buffer(64);
    let handle = open(&mut device, container, MTLIOCompressionMethod::lz4);
    let queue = IOCommandQueue::new(&IOCommandQueueDescriptor::new()).unwrap();
    let mut cb = queue.new_command_buffer_with_unretained_references();
    assert!(!cb.retains_references());
    assert_eq!(cb.status(), MTLIOStatus::pending);
    cb.set_label("faces");
    assert_eq!(cb.label(), "faces");
    cb.enqueue();
    cb.wait_until_completed(&mut device);
    assert_eq!(cb.status(), MTLIOStatus::pending);
    cb.load_buffer(buffer, 0, 64, handle, 0);
    cb.commit();
    cb.load_buffer(buffer, 0, 1, handle, 0);
    assert_eq!(cb.operations().len(), 1);
    cb.wait_until_completed(&mut device);
    assert_eq!(cb.status(), MTLIOStatus::complete);
    cb.try_cancel();
    assert_eq!(cb.status(), MTLIOStatus::complete);
    cb.wait_until_completed(&mut device);
    assert_eq!(cb.status(), MTLIOStatus::complete);
    assert!(queue.new_command_buffer().retains_references());
}

#[test]
fn cancelled_buffer_writes_nothing() {
    let container = compress(&sample(32, 9), MTLIOCompressionMethod::zlib, 8);
    let mut device = Device::new();
    let buffer = device.new_buffer(32);
    let handle = open(&mut device, container, MTLIOCompressionMethod::zlib);
    let queue = IOCommandQueue::new(&IOCommandQueueDescriptor::new()).unwrap();
    let mut cb = queue.new_command_buffer();
    cb.load_buffer(buffer, 0, 32, handle, 0);
    cb.commit();
    cb.try_cancel();
    assert_eq!(cb.status(), MTLIOStatus::cancelled);
    cb.wait_until_completed(&mut device);
    assert_eq!(cb.status(), MTLIOStatus::cancelled);
    assert!(device.buffer_contents(buffer).unwrap().iter().all(|b| *b == 0));
}
