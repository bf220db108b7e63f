//! Reflection data on the arguments a shader binds.
//!
//! A binding carries what every binding has (name, index, access, kind) and,
//! for buffers and textures, the details of that kind in [`MTLBinding`].

use crate::device::MTLTextureType;
use vstd::prelude::*;

verus! {

#[allow(non_camel_case_types)]
#[derive(Copy, Clone, Debug, PartialEq, Eq, Hash, Structural)]
pub enum MTLBindingType {
    buffer,
    threadgroupMemory,
    texture,
    sampler,
    imageblockData,
    imageblock,
    visibleFunctionTable,
    primitiveAccelerationStructure,
    instanceAccelerationStructure,
    intersectionFunctionTable,
    objectPayload,
}

impl MTLBindingType {
    pub open spec fn spec_raw(self) -> i64 {
        match self {
            MTLBindingType::buffer => 0,
            MTLBindingType::threadgroupMemory => 1,
            MTLBindingType::texture => 2,
            MTLBindingType::sampler => 3,
            MTLBindingType::imageblockData => 16,
            MTLBindingType::imageblock => 17,
            MTLBindingType::visibleFunctionTable => 24,
            MTLBindingType::primitiveAccelerationStructure => 25,
            MTLBindingType::instanceAccelerationStructure => 26,
            MTLBindingType::intersectionFunctionTable => 27,
            MTLBindingType::objectPayload => 34,
        }
    }

    pub fn raw(self) -> (r: i64)
        ensures
            r == self.spec_raw(),
    {
        match self {
            MTLBindingType::buffer => 0,
            MTLBindingType::threadgroupMemory => 1,
            MTLBindingType::texture => 2,
            MTLBindingType::sampler => 3,
            MTLBindingType::imageblockData => 16,
            MTLBindingType::imageblock => 17,
            MTLBindingType::visibleFunctionTable => 24,
            MTLBindingType::primitiveAccelerationStructure => 25,
            MTLBindingType::instanceAccelerationStructure => 26,
            MTLBindingType::intersectionFunctionTable => 27,
            MTLBindingType::objectPayload => 34,
        }
    }

    pub fn from_raw(raw: i64) -> (r: Option<MTLBindingType>)
        ensures
            r matches Some(t) ==> t.spec_raw() == raw,
            r is None <==> !(0 <= raw <= 3 || raw == 16 || raw == 17 || 24 <= raw <= 27 || raw
                == 34),
    {
        match raw {
            0 => Some(MTLBindingType::buffer),
            1 => Some(MTLBindingType::threadgroupMemory),
            2 => Some(MTLBindingType::texture),
            3 => Some(MTLBindingType::sampler),
            16 => Some(MTLBindingType::imageblockData),
            17 => Some(MTLBindingType::imageblock),
            24 => Some(MTLBindingType::visibleFunctionTable),
            25 => Some(MTLBindingType::primitiveAccelerationStructure),
            26 => Some(MTLBindingType::instanceAccelerationStructure),
            27 => Some(MTLBindingType::intersectionFunctionTable),
            34 => Some(MTLBindingType::objectPayload),
            _ => None,
        }
    }
}

/// How a shader may use a bound argument.
#[derive(Copy, Clone, Debug, PartialEq, Eq, Hash, Structural)]
pub enum MTLArgumentAccess {
    ReadOnly,
    ReadWrite,
    WriteOnly,
}

/// What a buffer binding says of its buffer.
#[derive(Copy, Clone, Debug, PartialEq, Eq, Hash, Structural)]
pub struct MTLBufferBinding {
    pub alignment: u64,
    pub data_size: u64,
    /// The code of the element data type.
    pub data_type: u64,
}

pub type BufferBinding = MTLBufferBinding;

pub type BufferBindingRef = MTLBufferBinding;

impl BufferBindingRef {
    pub fn buffer_alignment(&self) -> (r: u64)
        ensures
            r == self.alignment,
    {
        self.alignment
    }

    pub fn buffer_data_size(&self) -> (r: u64)
        ensures
            r == self.data_size,
    {
        self.data_size
    }

    pub fn buffer_data_type(&self) -> (r: u64)
        ensures
            r == self.data_type,
    {
        self.data_type
    }
}

/// What a texture binding says of its texture.
#[derive(Copy, Clone, Debug, PartialEq, Eq, Hash, Structural)]
pub struct MTLTextureBinding {
    pub array_length: u64,
    pub is_depth_texture: bool,
    /// The code of the texel data type.
    pub texture_data_type: u64,
    pub texture_type: MTLTextureType,
}

pub type TextureBinding = MTLTextureBinding;

pub type TextureBindingRef = MTLTextureBinding;

impl TextureBindingRef {
    pub fn array_length(&self) -> (r: u64)
        ensures
            r == self.array_length,
    {
        self.array_length
    }

    pub fn is_depth_texture(&self) -> (r: bool)
        ensures
            r == self.is_depth_texture,
    {
        self.is_depth_texture
    }

    pub fn texture_data_type(&self) -> (r: u64)
        ensures
            r == self.texture_data_type,
    {
        self.texture_data_type
    }

    pub fn texture_type(&self) -> (r: MTLTextureType)
        ensures
            r == self.texture_type,
    {
        self.texture_type
    }
}

/// The details of a binding, by its kind.
#[derive(Copy, Clone, Debug, PartialEq, Eq, Hash, Structural)]
pub enum MTLBinding {
    Buffer(MTLBufferBinding),
    Texture(MTLTextureBinding),
    /// Any other kind, named by its type.
    Other(MTLBindingType),
}

impl MTLBinding {
    /// The kind of binding the details describe.
    pub open spec fn spec_type(self) -> MTLBindingType {
        match self {
            MTLBinding::Buffer(_) => MTLBindingType::buffer,
            MTLBinding::Texture(_) => MTLBindingType::texture,
            MTLBinding::Other(t) => t,
        }
    }
}

/// A bound argument of a shader.
pub struct Binding {
    name: String,
    index: u64,
    access: MTLArgumentAccess,
    is_argument: bool,
    is_used: bool,
    is_active: bool,
    detail: MTLBinding,
}

pub type BindingRef = Binding;

impl BindingRef {
    /// Buffer and texture bindings always carry their details.
    #[verifier::type_invariant]
    spec fn kinds_carry_details(&self) -> bool {
        !(self.detail matches MTLBinding::Other(t) && (t == MTLBindingType::buffer || t
            == MTLBindingType::texture))
    }

    pub closed spec fn spec_name(&self) -> Seq<char> {
        self.name@
    }

    pub closed spec fn spec_index(&self) -> u64 {
        self.index
    }

    pub closed spec fn spec_access(&self) -> MTLArgumentAccess {
        self.access
    }

    pub closed spec fn spec_flags(&self) -> (bool, bool, bool) {
        (self.is_argument, self.is_used, self.is_active)
    }

    pub closed spec fn spec_detail(&self) -> MTLBinding {
        self.detail
    }

    /// A binding; `None` where the details name the buffer or texture kind
    /// without carrying that kind's details. Its type is the one its details
    /// describe.
    pub fn new(
        name: &str,
        index: u64,
        access: MTLArgumentAccess,
        is_argument: bool,
        is_used: bool,
        is_active: bool,
        detail: MTLBinding,
    ) -> (r: Option<Binding>)
        ensures
            r is None <==> (detail matches MTLBinding::Other(t) && (t == MTLBindingType::buffer
                || t == MTLBindingType::texture)),
            r matches Some(b) ==> b.spec_name() == name@ && b.spec_index() == index
                && b.spec_access() == access && b.spec_flags() == (is_argument, is_used, is_active)
                && b.spec_detail() == detail,
    {
        if let MTLBinding::Other(t) = detail {
            if t == MTLBindingType::buffer || t == MTLBindingType::texture {
                return None;
            }
        }
        Some(Binding { name: name.to_owned(), index, access, is_argument, is_used, is_active, detail })
    }

    pub fn access(&self) -> (r: MTLArgumentAccess)
        ensures
            r == self.spec_access(),
    {
        self.access
    }

    pub fn index(&self) -> (r: u64)
        ensures
            r == self.spec_index(),
    {
        self.index
    }

    pub fn is_argument(&self) -> (r: bool)
        ensures
            r == self.spec_flags().0,
    {
        self.is_argument
    }

    pub fn is_used(&self) -> (r: bool)
        ensures
            r == self.spec_flags().1,
    {
        self.is_used
    }

    pub fn is_active(&self) -> (r: bool)
        ensures
            r == self.spec_flags().2,
    {
        self.is_active
    }

    pub fn name(&self) -> (r: &str)
        ensures
            r@ == self.spec_name(),
    {
        self.name.as_str()
    }

    pub fn type_(&self) -> (r: MTLBindingType)
        ensures
            r == self.spec_detail().spec_type(),
    {
        match self.detail {
            MTLBinding::Buffer(_) => MTLBindingType::buffer,
            MTLBinding::Texture(_) => MTLBindingType::texture,
            MTLBinding::Other(t) => t,
        }
    }

    pub fn detail(&self) -> (r: MTLBinding)
        ensures
            r == self.spec_detail(),
    {
        self.detail
    }

    /// The buffer details, where this is a buffer binding.
    pub fn as_buffer_binding(&self) -> (r: Option<MTLBufferBinding>)
        ensures
            r matches Some(b) ==> self.spec_detail() == MTLBinding::Buffer(b),
            r is Some <==> self.spec_detail().spec_type() == MTLBindingType::buffer,
    {
        proof {
            use_type_invariant(self);
        }
        match self.detail {
            MTLBinding::Buffer(b) => Some(b),
            _ => None,
        }
    }

    /// The texture details, where this is a texture binding.
    pub fn as_texture_binding(&self) -> (r: Option<MTLTextureBinding>)
        ensures
            r matches Some(t) ==> self.spec_detail() == MTLBinding::Texture(t),
            r is Some <==> self.spec_detail().spec_type() == MTLBindingType::texture,
    {
        proof {
            use_type_invariant(self);
        }
        match self.detail {
            MTLBinding::Texture(t) => Some(t),
            _ => None,
        }
    }
}

} // verus!
