//! The device: the resources that load operations write into, and the file
//! handles they read from.

use crate::command::run_ops;
use crate::error::IOError;
use crate::handle::MTLIOFileHandle;
use crate::transfer::{
    buffer_load_result, lemma_buffer_load_idempotent, lemma_texture_load_idempotent,
    lemma_texture_load_keeps_length, lemma_full_region_load, full_region,
    load_into_buffer, load_into_texture_image, texture_load_result, ImageShape, RegionCopy,
};
use vstd::prelude::*;

verus! {

/// The kind of a texture, which decides how many slices it has.
#[allow(non_camel_case_types)]
#[derive(Copy, Clone, Debug, PartialEq, Eq, Hash, Structural)]
pub enum MTLTextureType {
    D1,
    D1Array,
    D2,
    D2Array,
    D2Multisample,
    Cube,
    CubeArray,
    D3,
    D2MultisampleArray,
    TextureBuffer,
}

/// How a texture is laid out.
#[derive(Copy, Clone, Debug, PartialEq, Eq, Hash, Structural)]
pub struct TextureDescriptor {
    pub texture_type: MTLTextureType,
    pub width: u64,
    pub height: u64,
    pub depth: u64,
    pub array_length: u64,
    pub mipmap_level_count: u64,
    pub bytes_per_pixel: u64,
}

/// The number of slices of a texture: six faces for each cube, one slice
/// for each array element, else one.
pub open spec fn slice_count(d: TextureDescriptor) -> int {
    match d.texture_type {
        MTLTextureType::Cube => 6,
        MTLTextureType::CubeArray => 6 * d.array_length,
        MTLTextureType::D1Array | MTLTextureType::D2Array
        | MTLTextureType::D2MultisampleArray => d.array_length as int,
        _ => 1,
    }
}

/// An extent at mip level `level`: halved at each level, never below one.
pub open spec fn mip_extent(x: u64, level: nat) -> u64
    decreases level,
{
    if level == 0 {
        x
    } else {
        let p = mip_extent(x, (level - 1) as nat);
        if p / 2 == 0 {
            1
        } else {
            p / 2
        }
    }
}

pub open spec fn level_shape(d: TextureDescriptor, level: nat) -> ImageShape {
    ImageShape {
        width: mip_extent(d.width, level),
        height: mip_extent(d.height, level),
        depth: mip_extent(d.depth, level),
        bytes_per_pixel: d.bytes_per_pixel,
    }
}

/// Whether a texture with this layout can be made: no extent, count or
/// pixel size is zero, and every image fits in memory.
pub open spec fn descriptor_is_valid(d: TextureDescriptor) -> bool {
    &&& d.width >= 1 && d.height >= 1 && d.depth >= 1
    &&& d.array_length >= 1 && d.mipmap_level_count >= 1 && d.bytes_per_pixel >= 1
    &&& slice_count(d) <= usize::MAX
    &&& d.mipmap_level_count <= usize::MAX
    &&& forall|l: nat| l < d.mipmap_level_count ==> #[trigger] level_shape(d, l).byte_len() <= usize::MAX
}

pub open spec fn zeros(n: int) -> Seq<u8> {
    Seq::new(n as nat, |i: int| 0u8)
}

/// A texture: for each slice, one image for each mip level.
pub struct Texture {
    descriptor: TextureDescriptor,
    shapes: Vec<ImageShape>,
    slices: Vec<Vec<Vec<u8>>>,
}

pub struct TextureModel {
    pub descriptor: TextureDescriptor,
    pub shapes: Seq<ImageShape>,
    pub images: Seq<Seq<Seq<u8>>>,
}

impl TextureModel {
    pub open spec fn wf(self) -> bool {
        &&& self.shapes.len() == self.descriptor.mipmap_level_count
        &&& self.images.len() == slice_count(self.descriptor)
        &&& forall|l: int| 0 <= l < self.shapes.len() ==> (#[trigger] self.shapes[l]).wf()
        &&& forall|s: int|
            0 <= s < self.images.len() ==> (#[trigger] self.images[s]).len() == self.shapes.len()
        &&& forall|s: int, l: int|
            0 <= s < self.images.len() && 0 <= l < self.shapes.len() ==> (
            #[trigger] self.images[s][l]).len() == self.shapes[l].byte_len()
    }
}

impl View for Texture {
    type V = TextureModel;

    closed spec fn view(&self) -> TextureModel {
        TextureModel {
            descriptor: self.descriptor,
            shapes: self.shapes@,
            images: self.slices@.map_values(|s: Vec<Vec<u8>>| s@.map_values(|i: Vec<u8>| i@)),
        }
    }
}

/// A buffer, by its place on its device.
#[derive(Copy, Clone, Debug, PartialEq, Eq, Hash, Structural)]
pub struct BufferId {
    pub index: usize,
}

/// A texture, by its place on its device.
#[derive(Copy, Clone, Debug, PartialEq, Eq, Hash, Structural)]
pub struct TextureId {
    pub index: usize,
}

/// A file handle, by its place on its device.
#[derive(Copy, Clone, Debug, PartialEq, Eq, Hash, Structural)]
pub struct HandleId {
    pub index: usize,
}

/// One decode-and-transfer operation of a command buffer.
#[derive(Copy, Clone, Debug, PartialEq, Eq, Hash, Structural)]
pub enum LoadOp {
    /// `size` bytes of the handle's content from `source_offset` into the
    /// buffer at `offset`.
    Buffer { buffer: BufferId, offset: u64, size: u64, handle: HandleId, source_offset: u64 },
    /// A region of the handle's content into one image of the texture.
    Texture { texture: TextureId, slice: u64, level: u64, region: RegionCopy, handle: HandleId },
}

impl LoadOp {
    /// The resource the operation writes: buffers and textures are told
    /// apart by the flag.
    pub open spec fn spec_destination(self) -> (bool, usize) {
        match self {
            LoadOp::Buffer { buffer, .. } => (false, buffer.index),
            LoadOp::Texture { texture, .. } => (true, texture.index),
        }
    }

    pub fn destination(&self) -> (r: (bool, usize))
        ensures
            r == self.spec_destination(),
    {
        match self {
            LoadOp::Buffer { buffer, .. } => (false, buffer.index),
            LoadOp::Texture { texture, .. } => (true, texture.index),
        }
    }
}

pub struct DeviceModel {
    pub buffers: Seq<Seq<u8>>,
    pub textures: Seq<TextureModel>,
    pub handles: Seq<Seq<u8>>,
}

impl DeviceModel {
    pub open spec fn wf(self) -> bool {
        forall|t: int| 0 <= t < self.textures.len() ==> (#[trigger] self.textures[t]).wf()
    }
}

/// What one operation leaves on the device; `None` where it names a missing
/// resource or handle, or reads or writes out of bounds.
pub open spec fn op_result(dev: DeviceModel, op: LoadOp) -> Option<DeviceModel> {
    match op {
        LoadOp::Buffer { buffer, offset, size, handle, source_offset } => {
            if buffer.index < dev.buffers.len() && handle.index < dev.handles.len() {
                match buffer_load_result(
                    dev.buffers[buffer.index as int],
                    offset,
                    size,
                    dev.handles[handle.index as int],
                    source_offset,
                ) {
                    Some(b) => Some(DeviceModel { buffers: dev.buffers.update(buffer.index as int, b), ..dev }),
                    None => None,
                }
            } else {
                None
            }
        },
        LoadOp::Texture { texture, slice, level, region, handle } => {
            if texture.index < dev.textures.len() && handle.index < dev.handles.len() && slice
                < dev.textures[texture.index as int].images.len() && level
                < dev.textures[texture.index as int].shapes.len() {
                let t = dev.textures[texture.index as int];
                match texture_load_result(
                    t.images[slice as int][level as int],
                    t.shapes[level as int],
                    region,
                    dev.handles[handle.index as int],
                ) {
                    Some(img) => Some(
                        DeviceModel {
                            textures: dev.textures.update(
                                texture.index as int,
                                TextureModel {
                                    images: t.images.update(
                                        slice as int,
                                        t.images[slice as int].update(level as int, img),
                                    ),
                                    ..t
                                },
                            ),
                            ..dev
                        },
                    ),
                    None => None,
                }
            } else {
                None
            }
        },
    }
}

/// A set of resources and file handles.
pub struct Device {
    buffers: Vec<Vec<u8>>,
    textures: Vec<Texture>,
    handles: Vec<MTLIOFileHandle>,
}

impl View for Device {
    type V = DeviceModel;

    closed spec fn view(&self) -> DeviceModel {
        DeviceModel {
            buffers: self.buffers@.map_values(|b: Vec<u8>| b@),
            textures: self.textures@.map_values(|t: Texture| t@),
            handles: self.handles@.map_values(|h: MTLIOFileHandle| h.spec_content()),
        }
    }
}

/// A vector of `n` zero bytes.
pub fn zeroed(n: usize) -> (r: Vec<u8>)
    ensures
        r@ == zeros(n as int),
{
    let mut v: Vec<u8> = Vec::new();
    let mut i: usize = 0;
    while i < n
        invariant
            i <= n,
            v@ == zeros(i as int),
        decreases n - i,
    {
        v.push(0u8);
        i = i + 1;
        assert(v@ =~= zeros(i as int));
    }
    v
}


/// The product of four extents, or `None` where it exceeds `u64::MAX`.
fn checked_volume(w: u64, h: u64, z: u64, b: u64) -> (r: Option<u64>)
    requires
        w >= 1,
        h >= 1,
        z >= 1,
        b >= 1,
    ensures
        r matches Some(v) ==> v == w * h * z * b,
        r is None ==> w * h * z * b > u64::MAX,
{
    proof {
        assert(w * h * z * b >= w * h * z && w * h * z >= w * h) by (nonlinear_arith)
            requires
                w >= 1,
                h >= 1,
                z >= 1,
                b >= 1,
        ;
    }
    match w.checked_mul(h) {
        Some(a) => match a.checked_mul(z) {
            Some(c) => c.checked_mul(b),
            None => None,
        },
        None => None,
    }
}

/// One zeroed image for each shape.
fn zeroed_levels(shapes: &Vec<ImageShape>) -> (r: Vec<Vec<u8>>)
    requires
        forall|l: int| 0 <= l < shapes@.len() ==> (#[trigger] shapes@[l]).byte_len() <= usize::MAX,
        forall|l: int| 0 <= l < shapes@.len() ==> (#[trigger] shapes@[l]).wf(),
    ensures
        r@.len() == shapes@.len(),
        forall|l: int| 0 <= l < shapes@.len() ==> (#[trigger] r@[l])@ == zeros(shapes@[l].byte_len()),
{
    let mut out: Vec<Vec<u8>> = Vec::new();
    let mut l: usize = 0;
    while l < shapes.len()
        invariant
            l <= shapes@.len(),
            out@.len() == l,
            forall|i: int| 0 <= i < shapes@.len() ==> (#[trigger] shapes@[i]).byte_len() <= usize::MAX,
            forall|i: int| 0 <= i < shapes@.len() ==> (#[trigger] shapes@[i]).wf(),
            forall|i: int| 0 <= i < l ==> (#[trigger] out@[i])@ == zeros(shapes@[i].byte_len()),
        decreases shapes@.len() - l,
    {
        let s = shapes[l];
        assert(s.byte_len() <= usize::MAX);
        let n: u64 = match checked_volume(s.width, s.height, s.depth, s.bytes_per_pixel) {
            Some(v) => v,
            None => 0,
        };
        out.push(zeroed(n as usize));
        l = l + 1;
    }
    out
}

impl Device {
    pub fn new() -> (r: Device)
        ensures
            r@.buffers.len() == 0,
            r@.textures.len() == 0,
            r@.handles.len() == 0,
            r@.wf(),
    {
        Device { buffers: Vec::new(), textures: Vec::new(), handles: Vec::new() }
    }

    /// Adds a zeroed buffer of `length` bytes.
    pub fn new_buffer(&mut self, length: u64) -> (r: BufferId)
        requires
            length <= usize::MAX,
            old(self)@.wf(),
        ensures
            final(self)@.wf(),
            r.index == old(self)@.buffers.len(),
            final(self)@ == (DeviceModel { buffers: old(self)@.buffers.push(zeros(length as int)), ..old(self)@ }),
    {
        let index = self.buffers.len();
        self.buffers.push(zeroed(length as usize));
        proof {
            assert(self@.buffers =~= old(self)@.buffers.push(zeros(length as int)));
            assert(self@.textures =~= old(self)@.textures);
            assert(self@.handles =~= old(self)@.handles);
        }
        BufferId { index }
    }

    /// The bytes of a buffer.
    pub fn buffer_contents(&self, id: BufferId) -> (r: Option<&[u8]>)
        ensures
            r is Some <==> id.index < self@.buffers.len(),
            r matches Some(b) ==> b@ == self@.buffers[id.index as int],
    {
        if id.index < self.buffers.len() {
            Some(self.buffers[id.index].as_slice())
        } else {
            None
        }
    }

    /// Adds a zeroed texture with the given layout.
    pub fn new_texture(&mut self, descriptor: TextureDescriptor) -> (r: Result<TextureId, IOError>)
        requires
            old(self)@.wf(),
        ensures
            final(self)@.wf(),
            r is Ok <==> descriptor_is_valid(descriptor),
            r matches Err(e) ==> e == IOError::ConfigError && final(self)@ == old(self)@,
            r matches Ok(id) ==> id.index == old(self)@.textures.len() && final(self)@ == (DeviceModel {
                textures: old(self)@.textures.push(
                    TextureModel {
                        descriptor,
                        shapes: Seq::new(
                            descriptor.mipmap_level_count as nat,
                            |l: int| level_shape(descriptor, l as nat),
                        ),
                        images: Seq::new(
                            slice_count(descriptor) as nat,
                            |s: int|
                                Seq::new(
                                    descriptor.mipmap_level_count as nat,
                                    |l: int| zeros(level_shape(descriptor, l as nat).byte_len()),
                                ),
                        ),
                    },
                ),
                ..old(self)@
            }),
    {
        let d = descriptor;
        if d.width == 0 || d.height == 0 || d.depth == 0 || d.array_length == 0
            || d.mipmap_level_count == 0 || d.bytes_per_pixel == 0 {
            return Err(IOError::ConfigError);
        }
        let slices: u64 = match d.texture_type {
            MTLTextureType::Cube => 6,
            MTLTextureType::CubeArray => {
                match d.array_length.checked_mul(6) {
                    Some(n) => n,
                    None => {
                        return Err(IOError::ConfigError);
                    },
                }
            },
            MTLTextureType::D1Array | MTLTextureType::D2Array
            | MTLTextureType::D2MultisampleArray => d.array_length,
            _ => 1,
        };
        if slices > usize::MAX as u64 || d.mipmap_level_count > usize::MAX as u64 {
            return Err(IOError::ConfigError);
        }
        let mut shapes: Vec<ImageShape> = Vec::new();
        let mut w = d.width;
        let mut h = d.height;
        let mut z = d.depth;
        let mut l: u64 = 0;
        while l < d.mipmap_level_count
            invariant
                d == descriptor,
                self@ == old(self)@,
                old(self)@.wf(),
                l <= d.mipmap_level_count,
                shapes@.len() == l,
                w >= 1 && h >= 1 && z >= 1 && d.bytes_per_pixel >= 1,
                w == mip_extent(d.width, l as nat),
                h == mip_extent(d.height, l as nat),
                z == mip_extent(d.depth, l as nat),
                forall|i: int| 0 <= i < l ==> #[trigger] shapes@[i] == level_shape(d, i as nat),
                forall|i: nat| i < l ==> #[trigger] level_shape(d, i).byte_len() <= usize::MAX,
            decreases d.mipmap_level_count - l,
        {
            let s = ImageShape { width: w, height: h, depth: z, bytes_per_pixel: d.bytes_per_pixel };
            assert(s == level_shape(d, l as nat));
            match checked_volume(w, h, z, d.bytes_per_pixel) {
                Some(v) => {
                    if v > usize::MAX as u64 {
                        assert(level_shape(d, l as nat).byte_len() > usize::MAX);
                        return Err(IOError::ConfigError);
                    }
                },
                None => {
                    assert(usize::MAX <= u64::MAX);
                    assert(level_shape(d, l as nat).byte_len() > usize::MAX);
                    return Err(IOError::ConfigError);
                },
            }
            shapes.push(s);
            w = if w / 2 == 0 { 1 } else { w / 2 };
            h = if h / 2 == 0 { 1 } else { h / 2 };
            z = if z / 2 == 0 { 1 } else { z / 2 };
            l = l + 1;
        }
        let mut images: Vec<Vec<Vec<u8>>> = Vec::new();
        let mut s: u64 = 0;
        while s < slices
            invariant
                s <= slices,
                images@.len() == s,
                forall|i: int| 0 <= i < shapes@.len() ==> (#[trigger] shapes@[i]).byte_len() <= usize::MAX,
                forall|i: int| 0 <= i < shapes@.len() ==> (#[trigger] shapes@[i]).wf(),
                forall|i: int| 0 <= i < shapes@.len() ==> #[trigger] shapes@[i] == level_shape(descriptor, i as nat),
                shapes@.len() == descriptor.mipmap_level_count,
                forall|i: int| 0 <= i < s ==> (#[trigger] images@[i])@.len() == shapes@.len(),
                forall|i: int, j: int| 0 <= i < s && 0 <= j < shapes@.len() ==> (#[trigger] images@[i]@[j])@ == zeros(shapes@[j].byte_len()),
            decreases slices - s,
        {
            images.push(zeroed_levels(&shapes));
            s = s + 1;
        }
        let index = self.textures.len();
        let tex = Texture { descriptor: d, shapes, slices: images };
        proof {
            let want_shapes = Seq::new(
                descriptor.mipmap_level_count as nat,
                |l: int| level_shape(descriptor, l as nat),
            );
            let want_images = Seq::new(
                slice_count(descriptor) as nat,
                |s: int|
                    Seq::new(
                        descriptor.mipmap_level_count as nat,
                        |l: int| zeros(level_shape(descriptor, l as nat).byte_len()),
                    ),
            );
            assert(slice_count(descriptor) == slices);
            assert(tex@.shapes =~= want_shapes);
            assert forall|i: int| 0 <= i < want_images.len() implies #[trigger] tex@.images[i]
                == want_images[i] by {
                assert(tex@.images[i] =~= want_images[i]);
            }
            assert(tex@.images =~= want_images);
            assert forall|s: int, l: int|
                0 <= s < tex@.images.len() && 0 <= l < tex@.shapes.len() implies (
                #[trigger] tex@.images[s][l]).len() == tex@.shapes[l].byte_len() by {
                assert(tex@.images[s][l] == zeros(shapes@[l].byte_len()));
            }
            assert(tex@.wf());
        }
        self.textures.push(tex);
        proof {
            assert(self@.buffers =~= old(self)@.buffers);
            assert(self@.handles =~= old(self)@.handles);
            assert(self@.textures =~= old(self)@.textures.push(tex@));
            assert forall|t: int| 0 <= t < self@.textures.len() implies (
            #[trigger] self@.textures[t]).wf() by {
                if t < old(self)@.textures.len() {
                    assert(self@.textures[t] == old(self)@.textures[t]);
                }
            }
        }
        Ok(TextureId { index })
    }

    /// The bytes of one image of a texture.
    pub fn texture_bytes(&self, id: TextureId, slice: u64, level: u64) -> (r: Option<&[u8]>)
        requires
            self@.wf(),
        ensures
            r is Some <==> id.index < self@.textures.len() && slice
                < self@.textures[id.index as int].images.len() && level
                < self@.textures[id.index as int].shapes.len(),
            r matches Some(b) ==> b@ == self@.textures[id.index as int].images[slice as int][level as int],
    {
        if id.index >= self.textures.len() {
            return None;
        }
        let t = &self.textures[id.index];
        assert(self@.textures[id.index as int] == t@);
        if slice >= t.slices.len() as u64 || level >= t.shapes.len() as u64 {
            return None;
        }
        let levels = &t.slices[slice as usize];
        assert(t@.images[slice as int] == levels@.map_values(|i: Vec<u8>| i@));
        Some(levels[level as usize].as_slice())
    }

    /// Registers an opened file handle so that load operations can name it.
    pub fn add_io_handle(&mut self, handle: MTLIOFileHandle) -> (r: HandleId)
        requires
            old(self)@.wf(),
        ensures
            final(self)@.wf(),
            r.index == old(self)@.handles.len(),
            final(self)@ == (DeviceModel {
                handles: old(self)@.handles.push(handle.spec_content()),
                ..old(self)@
            }),
    {
        let index = self.handles.len();
        let ghost content = handle.spec_content();
        self.handles.push(handle);
        proof {
            assert(self@.textures =~= old(self)@.textures);
            assert(self@.buffers =~= old(self)@.buffers);
            assert(self@.handles =~= old(self)@.handles.push(content));
        }
        HandleId { index }
    }

    /// A registered file handle.
    pub fn io_handle(&self, id: HandleId) -> (r: Option<&MTLIOFileHandle>)
        ensures
            r is Some <==> id.index < self@.handles.len(),
            r matches Some(h) ==> h.spec_content() == self@.handles[id.index as int],
    {
        if id.index < self.handles.len() {
            Some(&self.handles[id.index])
        } else {
            None
        }
    }


    /// Performs one load operation. Returns whether it succeeded; the device
    /// is untouched where it did not.
    pub fn execute(&mut self, op: &LoadOp) -> (ok: bool)
        requires
            old(self)@.wf(),
        ensures
            final(self)@.wf(),
            ok == op_result(old(self)@, *op) is Some,
            ok ==> Some(final(self)@) == op_result(old(self)@, *op),
            !ok ==> final(self)@ == old(self)@,
    {
        match *op {
            LoadOp::Buffer { buffer, offset, size, handle, source_offset } => {
                if buffer.index >= self.buffers.len() || handle.index >= self.handles.len() {
                    return false;
                }
                let mut dst = self.buffers.remove(buffer.index);
                let ok = load_into_buffer(
                    &mut dst,
                    offset,
                    size,
                    self.handles[handle.index].content(),
                    source_offset,
                );
                let ghost new_bytes = dst@;
                self.buffers.insert(buffer.index, dst);
                proof {
                    assert(self@.buffers =~= old(self)@.buffers.update(buffer.index as int, new_bytes));
                    assert(self@.textures =~= old(self)@.textures);
                    assert(self@.handles =~= old(self)@.handles);
                    if !ok {
                        assert(old(self)@.buffers.update(buffer.index as int, new_bytes) =~= old(self)@.buffers);
                    }
                }
                ok
            },
            LoadOp::Texture { texture, slice, level, region, handle } => {
                if texture.index >= self.textures.len() || handle.index >= self.handles.len() {
                    return false;
                }
                let ghost tm = self@.textures[texture.index as int];
                assert(tm == self.textures@[texture.index as int]@);
                if slice >= self.textures[texture.index].slices.len() as u64 || level
                    >= self.textures[texture.index].shapes.len() as u64 {
                    return false;
                }
                let mut tex = self.textures.remove(texture.index);
                let mut levels = tex.slices.remove(slice as usize);
                assert(tm.images[slice as int] == levels@.map_values(|i: Vec<u8>| i@));
                let mut img = levels.remove(level as usize);
                let shape = tex.shapes[level as usize];
                let ok = load_into_texture_image(
                    &mut img,
                    shape,
                    region,
                    self.handles[handle.index].content(),
                );
                let ghost new_img = img@;
                levels.insert(level as usize, img);
                tex.slices.insert(slice as usize, levels);
                let ghost new_tex = tex@;
                self.textures.insert(texture.index, tex);
                proof {
                    let want = TextureModel {
                        images: tm.images.update(
                            slice as int,
                            tm.images[slice as int].update(level as int, new_img),
                        ),
                        ..tm
                    };
                    assert(new_tex.images[slice as int] =~= tm.images[slice as int].update(level as int, new_img));
                    assert(new_tex.images =~= want.images);
                    assert(new_tex == want);
                    assert(self@.textures =~= old(self)@.textures.update(texture.index as int, want));
                    assert(self@.buffers =~= old(self)@.buffers);
                    assert(self@.handles =~= old(self)@.handles);
                    assert forall|s: int, l: int|
                        0 <= s < want.images.len() && 0 <= l < want.shapes.len() implies (
                        #[trigger] want.images[s][l]).len() == want.shapes[l].byte_len() by {
                        if s == slice && l == level {
                            assert(want.images[s][l] == new_img);
                        } else if s == slice {
                            assert(want.images[s][l] == tm.images[s][l]);
                        } else {
                            assert(want.images[s] == tm.images[s]);
                        }
                    }
                    assert(want.wf());
                    assert forall|t: int| 0 <= t < self@.textures.len() implies (
                    #[trigger] self@.textures[t]).wf() by {
                        if t != texture.index {
                            assert(self@.textures[t] == old(self)@.textures[t]);
                        }
                    }
                    if !ok {
                        assert(tm.images[slice as int].update(level as int, new_img) =~= tm.images[slice as int]);
                        assert(tm.images.update(slice as int, tm.images[slice as int]) =~= tm.images);
                        assert(old(self)@.textures.update(texture.index as int, tm) =~= old(self)@.textures);
                    }
                }
                ok
            },
        }
    }
}


/// Loading the same handle into the same destination a second time, after
/// the first load succeeded, succeeds again and leaves the device as the
/// first load left it.
pub proof fn lemma_load_twice(dev: DeviceModel, op: LoadOp)
    requires
        dev.wf(),
    ensures
        op_result(dev, op) matches Some(once) ==> op_result(once, op) == Some(once),
{
    match op {
        LoadOp::Buffer { buffer, offset, size, handle, source_offset } => {
            if let Some(once) = op_result(dev, op) {
                let i = buffer.index as int;
                let b = dev.buffers[i];
                let content = dev.handles[handle.index as int];
                lemma_buffer_load_idempotent(b, offset, size, content, source_offset);
                assert(once.buffers[i] == buffer_load_result(b, offset, size, content, source_offset).unwrap());
                assert(once.buffers.update(i, once.buffers[i]) =~= once.buffers);
            }
        },
        LoadOp::Texture { texture, slice, level, region, handle } => {
            if let Some(once) = op_result(dev, op) {
                let ti = texture.index as int;
                let t = dev.textures[ti];
                assert(t.wf());
                let img = t.images[slice as int][level as int];
                let content = dev.handles[handle.index as int];
                lemma_texture_load_idempotent(img, t.shapes[level as int], region, content);
                let t1 = once.textures[ti];
                assert(t1.images[slice as int][level as int] == texture_load_result(img, t.shapes[level as int], region, content).unwrap());
                assert(t1.images[slice as int].update(level as int, t1.images[slice as int][level as int]) =~= t1.images[slice as int]);
                assert(t1.images.update(slice as int, t1.images[slice as int]) =~= t1.images);
                assert(once.textures.update(ti, t1) =~= once.textures);
            }
        },
    }
}


/// Two devices with the same handles and resources of the same sizes.
pub open spec fn same_layout(x: DeviceModel, y: DeviceModel) -> bool {
    &&& x.handles == y.handles
    &&& x.buffers.len() == y.buffers.len()
    &&& forall|i: int| 0 <= i < x.buffers.len() ==> #[trigger] x.buffers[i].len() == y.buffers[i].len()
    &&& x.textures.len() == y.textures.len()
    &&& forall|t: int|
        0 <= t < x.textures.len() ==> {
            &&& (#[trigger] x.textures[t]).descriptor == y.textures[t].descriptor
            &&& x.textures[t].shapes == y.textures[t].shapes
            &&& x.textures[t].images.len() == y.textures[t].images.len()
            &&& forall|s: int|
                0 <= s < x.textures[t].images.len() ==> (#[trigger] x.textures[t].images[s]).len()
                    == y.textures[t].images[s].len()
            &&& forall|s: int, l: int|
                0 <= s < x.textures[t].images.len() && 0 <= l < x.textures[t].images[s].len()
                    ==> (#[trigger] x.textures[t].images[s][l]).len()
                    == y.textures[t].images[s][l].len()
        }
}

/// A load changes the bytes of its destination and nothing else.
proof fn lemma_op_frame(dev: DeviceModel, a: LoadOp)
    requires
        dev.wf(),
    ensures
        op_result(dev, a) matches Some(d1) ==> {
            &&& same_layout(dev, d1)
            &&& d1.wf()
            &&& forall|i: int|
                0 <= i < dev.buffers.len() && (false, i as usize) != a.spec_destination()
                    ==> #[trigger] d1.buffers[i] == dev.buffers[i]
            &&& forall|t: int|
                0 <= t < dev.textures.len() && (true, t as usize) != a.spec_destination()
                    ==> #[trigger] d1.textures[t] == dev.textures[t]
        },
{
    match a {
        LoadOp::Buffer { buffer, offset, size, handle, source_offset } => {
            if let Some(d1) = op_result(dev, a) {
                assert(d1.textures == dev.textures);
                assert forall|t: int| 0 <= t < d1.textures.len() implies (#[trigger] d1.textures[t]).wf() by {
                    assert(dev.textures[t].wf());
                }
            }
        },
        LoadOp::Texture { texture, slice, level, region, handle } => {
            if let Some(d1) = op_result(dev, a) {
                let ti = texture.index as int;
                let t = dev.textures[ti];
                assert(t.wf());
                let img = t.images[slice as int][level as int];
                lemma_texture_load_keeps_length(
                    img,
                    t.shapes[level as int],
                    region,
                    dev.handles[handle.index as int],
                );
                let t1 = d1.textures[ti];
                assert forall|s: int, l: int|
                    0 <= s < t1.images.len() && 0 <= l < t1.shapes.len() implies (
                    #[trigger] t1.images[s][l]).len() == t1.shapes[l].byte_len() by {
                    if s == slice && l == level {
                    } else if s == slice {
                        assert(t1.images[s][l] == t.images[s][l]);
                    } else {
                        assert(t1.images[s] == t.images[s]);
                    }
                }
                assert(t1.wf());
                assert forall|u: int| 0 <= u < d1.textures.len() implies (#[trigger] d1.textures[u]).wf() by {
                    if u != ti {
                        assert(d1.textures[u] == dev.textures[u]);
                    }
                }
                assert forall|u: int| 0 <= u < dev.textures.len() implies {
                    &&& (#[trigger] dev.textures[u]).descriptor == d1.textures[u].descriptor
                    &&& dev.textures[u].shapes == d1.textures[u].shapes
                    &&& dev.textures[u].images.len() == d1.textures[u].images.len()
                    &&& forall|s: int|
                        0 <= s < dev.textures[u].images.len() ==> (
                        #[trigger] dev.textures[u].images[s]).len()
                            == d1.textures[u].images[s].len()
                    &&& forall|s: int, l: int|
                        0 <= s < dev.textures[u].images.len() && 0 <= l
                            < dev.textures[u].images[s].len() ==> (
                        #[trigger] dev.textures[u].images[s][l]).len()
                            == d1.textures[u].images[s][l].len()
                } by {
                    if u == ti {
                        assert forall|s: int, l: int|
                            0 <= s < t.images.len() && 0 <= l < t.images[s].len() implies (
                            #[trigger] t.images[s][l]).len() == t1.images[s][l].len() by {
                            if s == slice && l == level {
                            } else if s == slice {
                                assert(t1.images[s][l] == t.images[s][l]);
                            } else {
                                assert(t1.images[s] == t.images[s]);
                            }
                        }
                    }
                }
            }
        },
    }
}

/// A load leaves every texture well formed.
pub proof fn lemma_op_keeps_wf(dev: DeviceModel, a: LoadOp)
    requires
        dev.wf(),
    ensures
        op_result(dev, a) matches Some(d1) ==> d1.wf(),
{
    lemma_op_frame(dev, a);
}

/// Whether a load succeeds, and what it writes, depends only on the layout,
/// the handles and the bytes of its own destination.
proof fn lemma_op_local(x: DeviceModel, y: DeviceModel, a: LoadOp)
    requires
        x.wf(),
        y.wf(),
        same_layout(x, y),
        match a {
            LoadOp::Buffer { buffer, .. } => buffer.index < x.buffers.len() ==> x.buffers[buffer.index as int]
                == y.buffers[buffer.index as int],
            LoadOp::Texture { texture, .. } => texture.index < x.textures.len() ==> x.textures[texture.index as int]
                == y.textures[texture.index as int],
        },
    ensures
        (op_result(x, a) is Some) == (op_result(y, a) is Some),
        op_result(x, a) matches Some(dx) ==> match a {
            LoadOp::Buffer { buffer, .. } => dx.buffers[buffer.index as int] == op_result(y, a).unwrap().buffers[buffer.index as int],
            LoadOp::Texture { texture, .. } => dx.textures[texture.index as int] == op_result(y, a).unwrap().textures[texture.index as int],
        },
{
    match a {
        LoadOp::Texture { texture, slice, level, region, handle } => {
            if texture.index < x.textures.len() {
                let t = x.textures[texture.index as int];
                assert(t == y.textures[texture.index as int]);
            }
        },
        _ => {},
    }
}

/// Two loads into different resources leave the device the same in either
/// order, and succeed or fail alike: a command buffer may run such loads in
/// any order without changing what it produces.
pub proof fn lemma_distinct_loads_commute(dev: DeviceModel, a: LoadOp, b: LoadOp)
    requires
        dev.wf(),
        a.spec_destination() != b.spec_destination(),
    ensures
        run_ops(dev, seq![a, b]) == run_ops(dev, seq![b, a]),
{
    lemma_op_frame(dev, a);
    lemma_op_frame(dev, b);
    assert(seq![a, b].drop_last() =~= seq![a]);
    assert(seq![b, a].drop_last() =~= seq![b]);
    assert(seq![a].drop_last() =~= Seq::<LoadOp>::empty());
    assert(seq![b].drop_last() =~= Seq::<LoadOp>::empty());
    assert(run_ops(dev, Seq::<LoadOp>::empty()) == (dev, true));
    assert(seq![a, b].last() == b && seq![b, a].last() == a);
    assert(seq![a].last() == a && seq![b].last() == b);
    match (op_result(dev, a), op_result(dev, b)) {
        (Some(da), Some(db)) => {
            lemma_op_local(dev, da, b);
            lemma_op_local(dev, db, a);
            lemma_op_frame(da, b);
            lemma_op_frame(db, a);
            let ab = op_result(da, b).unwrap();
            let ba = op_result(db, a).unwrap();
            assert(ab.buffers =~= ba.buffers) by {
                assert forall|i: int| 0 <= i < ab.buffers.len() implies ab.buffers[i]
                    == ba.buffers[i] by {
                    if (false, i as usize) == a.spec_destination() {
                    } else if (false, i as usize) == b.spec_destination() {
                    } else {
                        assert(ab.buffers[i] == dev.buffers[i]);
                    }
                }
            }
            assert(ab.textures =~= ba.textures) by {
                assert forall|t: int| 0 <= t < ab.textures.len() implies ab.textures[t]
                    == ba.textures[t] by {
                    if (true, t as usize) == a.spec_destination() {
                    } else if (true, t as usize) == b.spec_destination() {
                    } else {
                        assert(ab.textures[t] == dev.textures[t]);
                    }
                }
            }
            assert(ab == ba);
            assert(run_ops(dev, seq![a]) == (da, true));
            assert(run_ops(dev, seq![b]) == (db, true));
            assert(run_ops(dev, seq![a, b]) == (ab, true));
            assert(run_ops(dev, seq![b, a]) == (ba, true));
        },
        (Some(da), None) => {
            lemma_op_local(dev, da, b);
            assert(run_ops(dev, seq![a]) == (da, true));
            assert(run_ops(dev, seq![b]) == (dev, false));
            assert(run_ops(dev, seq![a, b]) == (da, false));
            assert(run_ops(dev, seq![b, a]) == (da, false));
        },
        (None, Some(db)) => {
            lemma_op_local(dev, db, a);
            assert(run_ops(dev, seq![a]) == (dev, false));
            assert(run_ops(dev, seq![b]) == (db, true));
            assert(run_ops(dev, seq![a, b]) == (db, false));
            assert(run_ops(dev, seq![b, a]) == (db, false));
        },
        (None, None) => {
            assert(run_ops(dev, seq![a]) == (dev, false));
            assert(run_ops(dev, seq![b]) == (dev, false));
        },
    }
}


/// Running loads changes no layout and keeps every texture well formed.
proof fn lemma_run_ops_layout(dev: DeviceModel, ops: Seq<LoadOp>)
    requires
        dev.wf(),
    ensures
        same_layout(dev, run_ops(dev, ops).0),
        run_ops(dev, ops).0.wf(),
    decreases ops.len(),
{
    if ops.len() > 0 {
        lemma_run_ops_layout(dev, ops.drop_last());
        let d = run_ops(dev, ops.drop_last()).0;
        lemma_op_frame(d, ops.last());
    }
}

/// A load of a whole level-0 image of slice `slice` of `texture` from the
/// densely packed content of `handle`.
pub open spec fn face_load(dev: DeviceModel, texture: TextureId, slice: u64, handle: HandleId) -> LoadOp {
    LoadOp::Texture {
        texture,
        slice,
        level: 0,
        region: full_region(dev.textures[texture.index as int].shapes[0]),
        handle,
    }
}

/// Loads of whole level-0 images into distinct slices of one texture, each
/// from a handle whose content has the image's size, all succeed and leave
/// each slice holding its handle's content.
pub proof fn lemma_face_loads(
    dev: DeviceModel,
    texture: TextureId,
    slices: Seq<u64>,
    handles: Seq<HandleId>,
)
    requires
        dev.wf(),
        texture.index < dev.textures.len(),
        dev.textures[texture.index as int].shapes.len() > 0,
        slices.len() == handles.len(),
        forall|i: int, j: int| 0 <= i < j < slices.len() ==> slices[i] != slices[j],
        forall|i: int|
            0 <= i < slices.len() ==> #[trigger] slices[i]
                < dev.textures[texture.index as int].images.len(),
        forall|i: int|
            0 <= i < handles.len() ==> (#[trigger] handles[i]).index < dev.handles.len()
                && dev.handles[handles[i].index as int].len()
                == dev.textures[texture.index as int].shapes[0].byte_len(),
    ensures
        ({
            let ops = Seq::new(
                slices.len(),
                |i: int| face_load(dev, texture, slices[i], handles[i]),
            );
            &&& run_ops(dev, ops).1
            &&& forall|i: int|
                0 <= i < slices.len() ==> (#[trigger] run_ops(dev, ops).0.textures[texture.index as int].images[slices[i] as int][0])
                    == dev.handles[handles[i].index as int]
        }),
    decreases slices.len(),
{
    let n = slices.len();
    let ops = Seq::new(n, |i: int| face_load(dev, texture, slices[i], handles[i]));
    let t = texture.index as int;
    if n == 0 {
        assert(run_ops(dev, ops) == (dev, true));
    } else {
        let ps = slices.drop_last();
        let ph = handles.drop_last();
        lemma_face_loads(dev, texture, ps, ph);
        let pops = Seq::new(ps.len(), |i: int| face_load(dev, texture, ps[i], ph[i]));
        assert(ops.drop_last() =~= pops);
        lemma_run_ops_layout(dev, pops);
        let d = run_ops(dev, pops).0;
        let last = ops.last();
        let s_last = slices[n - 1];
        let h_last = handles[n - 1];
        assert(same_layout(dev, d));
        assert(d.textures[t].shapes == dev.textures[t].shapes);
        let tm = d.textures[t];
        assert(tm.wf());
        let shape = tm.shapes[0];
        assert(shape.wf());
        let img = tm.images[s_last as int][0];
        assert(img.len() == shape.byte_len());
        lemma_full_region_load(img, shape, d.handles[h_last.index as int]);
        assert(last == face_load(dev, texture, s_last, h_last));
        let after = op_result(d, last).unwrap();
        assert(run_ops(dev, ops) == (after, run_ops(dev, pops).1));
        assert forall|i: int| 0 <= i < n implies (#[trigger] run_ops(dev, ops).0.textures[t].images[slices[i] as int][0])
            == dev.handles[handles[i].index as int] by {
            if i < n - 1 {
                assert(slices[i] != s_last);
                assert(ps[i] == slices[i] && ph[i] == handles[i]);
                assert(after.textures[t].images[slices[i] as int] == d.textures[t].images[slices[i] as int]);
            }
        }
    }
}

} // verus!
