use metal_io::{
    job_decision, job_status, JobDecision, load_job, plan_loads, policy_for, Device, HandleId, IOCommandQueue, IOCommandQueueDescriptor,
    IOCompression, IOError, LoadOp, MTLIOCompressionMethod, MTLIOCompressionStatus,
    MTLIOFileHandle, MTLIOStatus, MTLOrigin, MTLSize, MTLTextureType, PartitionPolicy,
    TextureDescriptor, TextureId,
};
use metal_io::transfer::RegionCopy;

const BYTES_PER_PIXEL: u64 = 4;

fn face_image(face: usize, width: u64, height: u64) -> Vec<u8> {
    (0..width * height * BYTES_PER_PIXEL)
        .map(|i| ((i as usize * 31 + face * 57) % 256) as u8)
        .collect()
}

fn cube(width: u64, height: u64) -> TextureDescriptor {
    TextureDescriptor {
        texture_type: MTLTextureType::Cube,
        width,
        height,
        depth: 1,
        array_length: 1,
        mipmap_level_count: 1,
        bytes_per_pixel: BYTES_PER_PIXEL,
    }
}

fn write_container(data: &[u8]) -> Vec<u8> {
    let mut io = IOCompression::new(
        "/tmp/face.lz4",
        MTLIOCompressionMethod::lz4,
        IOCompression::default_chunk_size(),
    )
    .unwrap();
    io.append(data);
    let (status, bytes) = io.flush();
    assert_eq!(status, MTLIOCompressionStatus::complete);
    bytes
}

fn face_load(texture: TextureId, face: u64, width: u64, height: u64, handle: HandleId) -> LoadOp {
    LoadOp::Texture {
        texture,
        slice: face,
        level: 0,
        region: RegionCopy {
            size: MTLSize { width, height, depth: 1 },
            origin: MTLOrigin { x: 0, y: 0, z: 0 },
            bytes_per_row: width * BYTES_PER_PIXEL,
            bytes_per_image: width * height * BYTES_PER_PIXEL,
            source_offset: 0,
        },
        handle,
    }
}

fn cube_setup(width: u64, height: u64) -> (Device, TextureId, Vec<HandleId>, Vec<Vec<u8>>) {
    let mut device = Device::new();
    let texture = device.new_texture(cube(width, height)).unwrap();
    let mut handles = vec![];
    let mut images = vec![];
    for face in 0..6 {
        let img = face_image(face, width, height);
        let container = write_container(&img);
        let handle = MTLIOFileHandle::open(Ok(container), MTLIOCompressionMethod::lz4).unwrap();
        handles.push(device.add_io_handle(handle));
        images.push(img);
    }
    (device, texture, handles, images)
}

#[test]
fn six_faces_one_batch_per_face() {
    let (width, height) = (16, 8);
    for _run in 0..3 {
        let (mut device, texture, handles, images) = cube_setup(width, height);
        let mut desc = IOCommandQueueDescriptor::new();
        desc.set_max_command_buffer_count(6);
        desc.set_max_commands_in_flight(1);
        let queue = IOCommandQueue::new(&desc).unwrap();
        let mut buffers = vec![];
        for face in 0..6u64 {
            let mut cb = queue.new_command_buffer_with_unretained_references();
            cb.load_texture(
                texture,
                face,
                0,
                MTLSize { width, height, depth: 1 },
                width * BYTES_PER_PIXEL,
                height * width * BYTES_PER_PIXEL,
                MTLOrigin { x: 0, y: 0, z: 0 },
                handles[face as usize],
                0,
            );
            cb.commit();
            buffers.push(cb);
        }
        for cb in buffers.iter_mut() {
            cb.wait_until_completed(&mut device);
            assert_eq!(cb.status(), MTLIOStatus::complete);
        }
        for face in 0..6u64 {
            assert_eq!(device.texture_bytes(texture, face, 0).unwrap(), &images[face as usize][..]);
        }
    }
}

#[test]
fn serialized_policy_is_deterministic_over_many_runs() {
    let (width, height) = (8, 4);
    let mut first: Option<Vec<Vec<u8>>> = None;
    for _run in 0..100 {
        let (mut device, texture, handles, images) = cube_setup(width, height);
        let ops: Vec<LoadOp> =
            (0..6).map(|f| face_load(texture, f, width, height, handles[f as usize])).collect();
        let policy = policy_for(&ops);
        assert_eq!(policy, PartitionPolicy::BatchPerLoad);
        assert_eq!(load_job(&mut device, &ops, policy), MTLIOStatus::complete);
        let faces: Vec<Vec<u8>> =
            (0..6).map(|f| device.texture_bytes(texture, f, 0).unwrap().to_vec()).collect();
        assert_eq!(faces, images);
        match &first {
            None => first = Some(faces),
            Some(f) => assert_eq!(f, &faces),
        }
    }
}

#[test]
fn shared_destination_is_flagged_by_the_plan() {
    let texture = TextureId { index: 0 };
    let ops: Vec<LoadOp> =
        (0..6).map(|f| face_load(texture, f, 4, 4, HandleId { index: f as usize })).collect();
    assert_eq!(policy_for(&ops), PartitionPolicy::BatchPerLoad);
    let unrestricted = plan_loads(6, PartitionPolicy::Unrestricted);
    assert_eq!(unrestricted.batches, vec![vec![0, 1, 2, 3, 4, 5]]);
    assert!(unrestricted.max_commands_in_flight > 1);
    let per_load = plan_loads(6, PartitionPolicy::BatchPerLoad);
    assert_eq!(per_load.batches, (0..6).map(|i| vec![i]).collect::<Vec<_>>());
    assert_eq!(per_load.max_command_buffer_count, 6);
    assert_eq!(per_load.max_commands_in_flight, 1);
    let serial = plan_loads(6, PartitionPolicy::SerialSingleBatch);
    assert_eq!(serial.batches, vec![vec![0, 1, 2, 3, 4, 5]]);
    assert_eq!((serial.max_command_buffer_count, serial.max_commands_in_flight), (1, 1));
    let d = per_load.descriptor();
    assert_eq!((d.max_command_buffer_count(), d.max_commands_in_flight()), (6, 1));
}

#[test]
fn distinct_destinations_may_share_a_batch() {
    let ops: Vec<LoadOp> = (0..3)
        .map(|i| LoadOp::Buffer {
            buffer: metal_io::BufferId { index: i },
            offset: 0,
            size: 1,
            handle: HandleId { index: 0 },
            source_offset: 0,
        })
        .collect();
    assert_eq!(policy_for(&ops), PartitionPolicy::Unrestricted);
    assert_eq!(policy_for(&[]), PartitionPolicy::Unrestricted);
    assert_eq!(plan_loads(0, PartitionPolicy::BatchPerLoad).batches.len(), 0);
}

#[test]
fn every_policy_loads_the_same_cube() {
    let (width, height) = (4, 4);
    for policy in [
        PartitionPolicy::BatchPerLoad,
        PartitionPolicy::SerialSingleBatch,
        PartitionPolicy::Unrestricted,
    ] {
        let (mut device, texture, handles, images) = cube_setup(width, height);
        let ops: Vec<LoadOp> =
            (0..6).map(|f| face_load(texture, f, width, height, handles[f as usize])).collect();
        assert_eq!(load_job(&mut device, &ops, policy), MTLIOStatus::complete);
        for f in 0..6u64 {
            assert_eq!(device.texture_bytes(texture, f, 0).unwrap(), &images[f as usize][..]);
        }
    }
}

#[test]
fn failing_load_fails_the_job() {
    let (width, height) = (4, 4);
    let (mut device, texture, handles, _) = cube_setup(width, height);
    let mut ops: Vec<LoadOp> =
        (0..6).map(|f| face_load(texture, f, width, height, handles[f as usize])).collect();
    ops.push(face_load(texture, 6, width, height, handles[0]));
    assert_eq!(load_job(&mut device, &ops, PartitionPolicy::BatchPerLoad), MTLIOStatus::error);
}

#[test]
fn sub_region_with_pitches() {
    let mut device = Device::new();
    let texture = device
        .new_texture(TextureDescriptor {
            texture_type: MTLTextureType::D2,
            width: 4,
            height: 3,
            depth: 1,
            array_length: 1,
            mipmap_level_count: 1,
            bytes_per_pixel: 1,
        })
        .unwrap();
    // Two rows of two pixels, stored with a row pitch of 5 and two leading bytes.
    let source = vec![9, 9, 1, 2, 0, 0, 0, 3, 4];
    let container = write_container(&source);
    let handle = MTLIOFileHandle::open(Ok(container), MTLIOCompressionMethod::lz4).unwrap();
    let handle = device.add_io_handle(handle);
    let queue = IOCommandQueue::new(&IOCommandQueueDescriptor::new()).unwrap();
    let mut cb = queue.new_command_buffer();
    cb.load_texture(
        texture,
        0,
        0,
        MTLSize { width: 2, height: 2, depth: 1 },
        5,
        10,
        MTLOrigin { x: 1, y: 1, z: 0 },
        handle,
        2,
    );
    cb.commit();
    cb.wait_until_completed(&mut device);
    assert_eq!(cb.status(), MTLIOStatus::complete);
    assert_eq!(
        device.texture_bytes(texture, 0, 0).unwrap(),
        &[0, 0, 0, 0, 0, 1, 2, 0, 0, 3, 4, 0][..]
    );
    // A region one pixel too wide does not fit.
    let mut cb = queue.new_command_buffer();
    cb.load_texture(
        texture,
        0,
        0,
        MTLSize { width: 4, height: 1, depth: 1 },
        4,
        4,
        MTLOrigin { x: 1, y: 0, z: 0 },
        handle,
        0,
    );
    cb.commit();
    cb.wait_until_completed(&mut device);
    assert_eq!(cb.status(), MTLIOStatus::error);
}

#[test]
fn mip_levels_halve() {
    let mut device = Device::new();
    let texture = device
        .new_texture(TextureDescriptor {
            texture_type: MTLTextureType::D2Array,
            width: 8,
            height: 3,
            depth: 1,
            array_length: 2,
            mipmap_level_count: 3,
            bytes_per_pixel: 2,
        })
        .unwrap();
    assert_eq!(device.texture_bytes(texture, 0, 0).unwrap().len(), 8 * 3 * 2);
    assert_eq!(device.texture_bytes(texture, 1, 1).unwrap().len(), 4 * 1 * 2);
    assert_eq!(device.texture_bytes(texture, 1, 2).unwrap().len(), 2 * 1 * 2);
    assert!(device.texture_bytes(texture, 2, 0).is_none());
    assert!(device.texture_bytes(texture, 0, 3).is_none());
}

#[test]
fn invalid_texture_is_config_error() {
    let mut device = Device::new();
    let mut d = cube(0, 4);
    assert_eq!(device.new_texture(d).err(), Some(IOError::ConfigError));
    d = cube(4, 4);
    d.mipmap_level_count = 0;
    assert_eq!(device.new_texture(d).err(), Some(IOError::ConfigError));
    d = cube(u64::MAX, u64::MAX);
    assert_eq!(device.new_texture(d).err(), Some(IOError::ConfigError));
}

#[test]
fn job_status_and_decision() {
    let (c, ok, e, p) = (
        MTLIOStatus::cancelled,
        MTLIOStatus::complete,
        MTLIOStatus::error,
        MTLIOStatus::pending,
    );
    assert_eq!(job_status(&[]), ok);
    assert_eq!(job_status(&[ok, ok]), ok);
    assert_eq!(job_status(&[ok, p, e]), p);
    assert_eq!(job_status(&[c, e, ok]), e);
    assert_eq!(job_status(&[c, ok]), c);
    assert_eq!(job_decision(&[ok; 6], 1, 3), JobDecision::Loaded);
    assert_eq!(job_decision(&[ok, p], 1, 3), JobDecision::Wait);
    assert_eq!(job_decision(&[ok, e], 1, 3), JobDecision::Retry);
    assert_eq!(job_decision(&[c, ok], 2, 3), JobDecision::Retry);
    assert_eq!(job_decision(&[ok, e], 3, 3), JobDecision::Abandon);
}

fn two_loads_in_order(first_region: u64, same_target: bool) -> Vec<Vec<u8>> {
    let mut device = Device::new();
    let a = device.new_buffer(8);
    let b = device.new_buffer(8);
    let h1 = MTLIOFileHandle::open(Ok(write_container(&[1u8; 8])), MTLIOCompressionMethod::lz4)
        .unwrap();
    let h2 = MTLIOFileHandle::open(Ok(write_container(&[2u8; 8])), MTLIOCompressionMethod::lz4)
        .unwrap();
    let h1 = device.add_io_handle(h1);
    let h2 = device.add_io_handle(h2);
    let second_target = if same_target { a } else { b };
    let one = LoadOp::Buffer { buffer: a, offset: 0, size: 6, handle: h1, source_offset: 0 };
    let two =
        LoadOp::Buffer { buffer: second_target, offset: 2, size: 6, handle: h2, source_offset: 0 };
    let ops = if first_region == 0 { vec![one, two] } else { vec![two, one] };
    assert_eq!(load_job(&mut device, &ops, PartitionPolicy::Unrestricted), MTLIOStatus::complete);
    vec![device.buffer_contents(a).unwrap().to_vec(), device.buffer_contents(b).unwrap().to_vec()]
}

#[test]
fn order_matters_only_for_a_shared_destination() {
    assert_ne!(two_loads_in_order(0, true), two_loads_in_order(1, true));
    assert_eq!(two_loads_in_order(0, true)[0], vec![1, 1, 2, 2, 2, 2, 2, 2]);
    assert_eq!(two_loads_in_order(1, true)[0], vec![1, 1, 1, 1, 1, 1, 2, 2]);
    assert_eq!(two_loads_in_order(0, false), two_loads_in_order(1, false));
}
