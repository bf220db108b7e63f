//! Descriptors of acceleration structures, as plain data.

use crate::device::BufferId;
use vstd::prelude::*;

verus! {

/// The width of the indices of an index buffer.
#[derive(Copy, Clone, Debug, PartialEq, Eq, Hash, Structural)]
pub enum MTLIndexType {
    UInt16,
    UInt32,
}

/// A built acceleration structure, by its place among those of its device.
#[derive(Copy, Clone, Debug, PartialEq, Eq, Hash, Structural)]
pub struct MTLAccelerationStructure {
    pub index: usize,
}

pub type AccelerationStructure = MTLAccelerationStructure;

/// Triangles read from a vertex buffer and an optional index buffer.
pub struct MTLAccelerationStructureTriangleGeometryDescriptor {
    pub opaque: bool,
    pub label: String,
    pub vertex_buffer: Option<BufferId>,
    pub vertex_buffer_offset: u64,
    /// The code of the vertex attribute format.
    pub vertex_format: u64,
    pub vertex_stride: u64,
    pub index_buffer: Option<BufferId>,
    pub index_buffer_offset: u64,
    pub index_type: MTLIndexType,
    pub triangle_count: u64,
}

pub type AccelerationStructureTriangleGeometryDescriptor =
    MTLAccelerationStructureTriangleGeometryDescriptor;

pub type AccelerationStructureTriangleGeometryDescriptorRef =
    MTLAccelerationStructureTriangleGeometryDescriptor;

impl AccelerationStructureTriangleGeometryDescriptor {
    /// A descriptor with no buffers, no triangles and 32-bit indices.
    pub fn descriptor() -> (r: Self)
        ensures
            !r.opaque,
            r.label@ == Seq::<char>::empty(),
            r.vertex_buffer is None,
            r.vertex_buffer_offset == 0,
            r.vertex_format == 0,
            r.vertex_stride == 0,
            r.index_buffer is None,
            r.index_buffer_offset == 0,
            r.index_type == MTLIndexType::UInt32,
            r.triangle_count == 0,
    {
        MTLAccelerationStructureTriangleGeometryDescriptor {
            opaque: false,
            label: String::new(),
            vertex_buffer: None,
            vertex_buffer_offset: 0,
            vertex_format: 0,
            vertex_stride: 0,
            index_buffer: None,
            index_buffer_offset: 0,
            index_type: MTLIndexType::UInt32,
            triangle_count: 0,
        }
    }
}

impl AccelerationStructureTriangleGeometryDescriptorRef {
    pub fn set_vertex_buffer(&mut self, buffer: Option<BufferId>)
        ensures
            *final(self) == (Self { vertex_buffer: buffer, ..*old(self) }),
    {
        self.vertex_buffer = buffer;
    }

    pub fn set_vertex_buffer_offset(&mut self, offset: u64)
        ensures
            *final(self) == (Self { vertex_buffer_offset: offset, ..*old(self) }),
    {
        self.vertex_buffer_offset = offset;
    }

    pub fn set_vertex_format(&mut self, format: u64)
        ensures
            *final(self) == (Self { vertex_format: format, ..*old(self) }),
    {
        self.vertex_format = format;
    }

    pub fn set_vertex_stride(&mut self, stride: u64)
        ensures
            *final(self) == (Self { vertex_stride: stride, ..*old(self) }),
    {
        self.vertex_stride = stride;
    }

    pub fn set_index_buffer(&mut self, buffer: Option<BufferId>)
        ensures
            *final(self) == (Self { index_buffer: buffer, ..*old(self) }),
    {
        self.index_buffer = buffer;
    }

    pub fn set_index_buffer_offset(&mut self, offset: u64)
        ensures
            *final(self) == (Self { index_buffer_offset: offset, ..*old(self) }),
    {
        self.index_buffer_offset = offset;
    }

    pub fn set_index_type(&mut self, index_type: MTLIndexType)
        ensures
            *final(self) == (Self { index_type, ..*old(self) }),
    {
        self.index_type = index_type;
    }

    pub fn set_triangle_count(&mut self, count: u64)
        ensures
            *final(self) == (Self { triangle_count: count, ..*old(self) }),
    {
        self.triangle_count = count;
    }
}

/// A piece of geometry, by its kind.
pub enum MTLAccelerationStructureGeometryDescriptor {
    Triangle(MTLAccelerationStructureTriangleGeometryDescriptor),
}

pub type AccelerationStructureGeometryDescriptor = MTLAccelerationStructureGeometryDescriptor;

pub type AccelerationStructureGeometryDescriptorRef = MTLAccelerationStructureGeometryDescriptor;

/// Two triangle descriptors agree on every field but the label and opacity.
pub open spec fn same_triangles(
    a: MTLAccelerationStructureTriangleGeometryDescriptor,
    b: MTLAccelerationStructureTriangleGeometryDescriptor,
) -> bool {
    &&& a.vertex_buffer == b.vertex_buffer
    &&& a.vertex_buffer_offset == b.vertex_buffer_offset
    &&& a.vertex_format == b.vertex_format
    &&& a.vertex_stride == b.vertex_stride
    &&& a.index_buffer == b.index_buffer
    &&& a.index_buffer_offset == b.index_buffer_offset
    &&& a.index_type == b.index_type
    &&& a.triangle_count == b.triangle_count
}

impl AccelerationStructureGeometryDescriptorRef {
    pub open spec fn spec_triangles(&self) -> MTLAccelerationStructureTriangleGeometryDescriptor {
        match self {
            MTLAccelerationStructureGeometryDescriptor::Triangle(t) => *t,
        }
    }

    pub open spec fn spec_opaque(&self) -> bool {
        match self {
            MTLAccelerationStructureGeometryDescriptor::Triangle(t) => t.opaque,
        }
    }

    pub open spec fn spec_label(&self) -> Seq<char> {
        match self {
            MTLAccelerationStructureGeometryDescriptor::Triangle(t) => t.label@,
        }
    }

    pub fn set_opaque(&mut self, is_opaque: bool)
        ensures
            final(self).spec_opaque() == is_opaque,
            final(self).spec_label() == old(self).spec_label(),
            same_triangles(final(self).spec_triangles(), old(self).spec_triangles()),
    {
        match self {
            MTLAccelerationStructureGeometryDescriptor::Triangle(t) => {
                t.opaque = is_opaque;
            },
        }
    }

    pub fn set_label(&mut self, label: &str)
        ensures
            final(self).spec_label() == label@,
            final(self).spec_opaque() == old(self).spec_opaque(),
            same_triangles(final(self).spec_triangles(), old(self).spec_triangles()),
    {
        match self {
            MTLAccelerationStructureGeometryDescriptor::Triangle(t) => {
                t.label = label.to_owned();
            },
        }
    }
}

/// An acceleration structure over geometry.
pub struct MTLPrimitiveAccelerationStructureDescriptor {
    pub geometry_descriptors: Vec<MTLAccelerationStructureGeometryDescriptor>,
}

pub type PrimitiveAccelerationStructureDescriptor = MTLPrimitiveAccelerationStructureDescriptor;

pub type PrimitiveAccelerationStructureDescriptorRef = MTLPrimitiveAccelerationStructureDescriptor;

impl PrimitiveAccelerationStructureDescriptor {
    pub fn descriptor() -> (r: Self)
        ensures
            r.geometry_descriptors@.len() == 0,
    {
        MTLPrimitiveAccelerationStructureDescriptor { geometry_descriptors: Vec::new() }
    }
}

impl PrimitiveAccelerationStructureDescriptorRef {
    pub fn set_geometry_descriptors(
        &mut self,
        geometries: Vec<MTLAccelerationStructureGeometryDescriptor>,
    )
        ensures
            final(self).geometry_descriptors@ == geometries@,
    {
        self.geometry_descriptors = geometries;
    }
}

/// An acceleration structure over instances of other structures.
pub struct MTLInstanceAccelerationStructureDescriptor {
    pub instanced_acceleration_structures: Vec<MTLAccelerationStructure>,
    pub instance_count: u64,
    pub instance_descriptor_buffer: Option<BufferId>,
}

pub type InstanceAccelerationStructureDescriptor = MTLInstanceAccelerationStructureDescriptor;

pub type InstanceAccelerationStructureDescriptorRef = MTLInstanceAccelerationStructureDescriptor;

impl InstanceAccelerationStructureDescriptor {
    pub fn descriptor() -> (r: Self)
        ensures
            r.instanced_acceleration_structures@.len() == 0,
            r.instance_count == 0,
            r.instance_descriptor_buffer is None,
    {
        MTLInstanceAccelerationStructureDescriptor {
            instanced_acceleration_structures: Vec::new(),
            instance_count: 0,
            instance_descriptor_buffer: None,
        }
    }
}

impl InstanceAccelerationStructureDescriptorRef {
    pub fn set_instanced_acceleration_structures(
        &mut self,
        acceleration_structures: Vec<MTLAccelerationStructure>,
    )
        ensures
            final(self).instanced_acceleration_structures@ == acceleration_structures@,
            final(self).instance_count == old(self).instance_count,
            final(self).instance_descriptor_buffer == old(self).instance_descriptor_buffer,
    {
        self.instanced_acceleration_structures = acceleration_structures;
    }

    pub fn set_instance_count(&mut self, instance_count: u64)
        ensures
            final(self).instance_count == instance_count,
            final(self).instanced_acceleration_structures@ == old(
                self,
            ).instanced_acceleration_structures@,
            final(self).instance_descriptor_buffer == old(self).instance_descriptor_buffer,
    {
        self.instance_count = instance_count;
    }

    pub fn set_instance_descriptor_buffer(&mut self, buffer: Option<BufferId>)
        ensures
            final(self).instance_descriptor_buffer == buffer,
            final(self).instance_count == old(self).instance_count,
            final(self).instanced_acceleration_structures@ == old(
                self,
            ).instanced_acceleration_structures@,
    {
        self.instance_descriptor_buffer = buffer;
    }
}

/// An acceleration structure to build, by its kind.
pub enum MTLAccelerationStructureDescriptor {
    Primitive(MTLPrimitiveAccelerationStructureDescriptor),
    Instance(MTLInstanceAccelerationStructureDescriptor),
}

pub type AccelerationStructureDescriptor = MTLAccelerationStructureDescriptor;

} // verus!
