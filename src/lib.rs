//! Streaming of compressed containers into device resources.
//!
//! A compression context turns bytes into a chunked container; a file handle
//! binds such a container to the compression method it is read with; command
//! buffers issued from a command queue decode containers into the buffers
//! and texture images of a [`Device`]. Loads that share a destination are
//! laid out across command buffers by a [`PartitionPolicy`].

pub mod binding;
pub mod capturemanager;
pub mod codec;
pub mod command;
pub mod compression;
pub mod container;
pub mod device;
pub mod error;
pub mod handle;
pub mod plan;
pub mod raytracing;
pub mod status;
pub mod transfer;

pub use command::{
    IOCommandBuffer, IOCommandBufferRef, IOCommandQueue, IOCommandQueueDescriptor,
    IOCommandQueueDescriptorRef, IOCommandQueueRef, MTLIOCommandBuffer, MTLIOCommandQueue,
    MTLIOCommandQueueDescriptor,
};
pub use compression::IOCompression;
pub use device::{
    BufferId, Device, HandleId, LoadOp, MTLTextureType, TextureDescriptor, TextureId,
};
pub use error::{HandleErrorKind, IOError};
pub use handle::{MTLIOFileHandle, SourceReadError};
pub use plan::{
    job_decision, job_status, load_job, plan_loads, policy_for, JobDecision, LoadPlan,
    PartitionPolicy,
};
pub use status::{MTLIOCompressionMethod, MTLIOCompressionStatus, MTLIOStatus};
pub use transfer::{MTLOrigin, MTLSize};
