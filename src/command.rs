//! Command queues and the command buffers they issue.
//!
//! A command buffer gathers load operations until it is committed; waiting
//! on it then performs them in order and settles its status. Its status
//! leaves `pending` at most once.

use crate::device::{
    lemma_load_twice, op_result, BufferId, Device, DeviceModel, HandleId, LoadOp, TextureId,
};
use crate::error::IOError;
use crate::status::MTLIOStatus;
use crate::transfer::{MTLOrigin, MTLSize, RegionCopy};
use vstd::prelude::*;

verus! {

/// The device after `ops` run in order, and whether every one succeeded.
/// A failing operation writes nothing; the others still run.
pub open spec fn run_ops(dev: DeviceModel, ops: Seq<LoadOp>) -> (DeviceModel, bool)
    decreases ops.len(),
{
    if ops.len() == 0 {
        (dev, true)
    } else {
        let (d, ok) = run_ops(dev, ops.drop_last());
        match op_result(d, ops.last()) {
            Some(d2) => (d2, ok),
            None => (d, false),
        }
    }
}

/// Two command buffers that each hold the same single load, run one after
/// the other: when the first completes, the second completes too and leaves
/// every resource as the first left it.
pub proof fn lemma_batch_load_twice(dev: DeviceModel, op: LoadOp)
    requires
        dev.wf(),
    ensures
        run_ops(dev, seq![op]).1 ==> run_ops(run_ops(dev, seq![op]).0, seq![op]) == run_ops(
            dev,
            seq![op],
        ),
{
    let one = seq![op];
    assert(one.drop_last() =~= Seq::<LoadOp>::empty());
    assert(one.last() == op);
    assert(run_ops(dev, Seq::<LoadOp>::empty()) == (dev, true));
    lemma_load_twice(dev, op);
    if let Some(d1) = op_result(dev, op) {
        assert(run_ops(dev, one) == (d1, true));
        assert(run_ops(d1, Seq::<LoadOp>::empty()) == (d1, true));
        assert(run_ops(d1, one) == (d1, true));
    }
}

/// Bounds on the work a command queue lets run at once.
#[derive(Copy, Clone, Debug, PartialEq, Eq, Hash, Structural)]
pub struct MTLIOCommandQueueDescriptor {
    max_command_buffer_count: u64,
    max_commands_in_flight: u64,
}

/// The default bound on command buffers outstanding.
pub const DEFAULT_MAX_COMMAND_BUFFER_COUNT: u64 = 1;

/// The default bound on operations in flight: no bound.
pub const DEFAULT_MAX_COMMANDS_IN_FLIGHT: u64 = 0xffff_ffff_ffff_ffff;

pub type IOCommandQueueDescriptor = MTLIOCommandQueueDescriptor;

pub type IOCommandQueueDescriptorRef = MTLIOCommandQueueDescriptor;

impl IOCommandQueueDescriptor {
    pub closed spec fn spec_max_command_buffer_count(&self) -> u64 {
        self.max_command_buffer_count
    }

    pub closed spec fn spec_max_commands_in_flight(&self) -> u64 {
        self.max_commands_in_flight
    }

    /// Whether a queue can be made with these bounds: neither is zero.
    pub open spec fn spec_is_valid(&self) -> bool {
        self.spec_max_command_buffer_count() > 0 && self.spec_max_commands_in_flight() > 0
    }

    pub fn new() -> (r: Self)
        ensures
            r.spec_max_command_buffer_count() == DEFAULT_MAX_COMMAND_BUFFER_COUNT,
            r.spec_max_commands_in_flight() == DEFAULT_MAX_COMMANDS_IN_FLIGHT,
    {
        MTLIOCommandQueueDescriptor {
            max_command_buffer_count: DEFAULT_MAX_COMMAND_BUFFER_COUNT,
            max_commands_in_flight: DEFAULT_MAX_COMMANDS_IN_FLIGHT,
        }
    }
}

impl IOCommandQueueDescriptorRef {
    pub fn max_command_buffer_count(&self) -> (r: u64)
        ensures
            r == self.spec_max_command_buffer_count(),
    {
        self.max_command_buffer_count
    }

    pub fn set_max_command_buffer_count(&mut self, count: u64)
        ensures
            final(self).spec_max_command_buffer_count() == count,
            final(self).spec_max_commands_in_flight() == old(self).spec_max_commands_in_flight(),
    {
        self.max_command_buffer_count = count;
    }

    pub fn max_commands_in_flight(&self) -> (r: u64)
        ensures
            r == self.spec_max_commands_in_flight(),
    {
        self.max_commands_in_flight
    }

    pub fn set_max_commands_in_flight(&mut self, count: u64)
        ensures
            final(self).spec_max_commands_in_flight() == count,
            final(self).spec_max_command_buffer_count() == old(self).spec_max_command_buffer_count(),
    {
        self.max_commands_in_flight = count;
    }

    pub fn is_valid(&self) -> (r: bool)
        ensures
            r == self.spec_is_valid(),
    {
        self.max_command_buffer_count > 0 && self.max_commands_in_flight > 0
    }
}


/// What a command buffer holds besides its status.
pub struct CommandBufferContents {
    label: String,
    retains_references: bool,
    enqueued: bool,
    ops: Vec<LoadOp>,
}

/// A batch of load operations, committed and awaited as a unit.
///
/// A buffer gathers operations while `Encoding`. Once `Committed` it takes
/// no more, and its status moves from `pending` to a terminal state at most
/// once.
pub enum MTLIOCommandBuffer {
    Encoding(CommandBufferContents),
    Committed(CommandBufferContents, MTLIOStatus),
}

pub type IOCommandBuffer = MTLIOCommandBuffer;

pub type IOCommandBufferRef = MTLIOCommandBuffer;

pub struct CommandBufferModel {
    pub label: Seq<char>,
    pub retains_references: bool,
    pub ops: Seq<LoadOp>,
    pub committed: bool,
    pub enqueued: bool,
    pub status: MTLIOStatus,
}

impl View for MTLIOCommandBuffer {
    type V = CommandBufferModel;

    closed spec fn view(&self) -> CommandBufferModel {
        let (c, committed, status) = match self {
            MTLIOCommandBuffer::Encoding(c) => (c, false, MTLIOStatus::pending),
            MTLIOCommandBuffer::Committed(c, s) => (c, true, *s),
        };
        CommandBufferModel {
            label: c.label@,
            retains_references: c.retains_references,
            ops: c.ops@,
            committed,
            enqueued: c.enqueued,
            status,
        }
    }
}

/// A buffer that is not committed is pending.
pub proof fn lemma_uncommitted_is_pending(b: &MTLIOCommandBuffer)
    ensures
        !b@.committed ==> b@.status == MTLIOStatus::pending,
{
}

impl IOCommandBufferRef {
    fn contents(&self) -> (r: &CommandBufferContents)
        ensures
            r.label@ == self@.label,
            r.retains_references == self@.retains_references,
            r.enqueued == self@.enqueued,
            r.ops@ == self@.ops,
    {
        match self {
            MTLIOCommandBuffer::Encoding(c) => c,
            MTLIOCommandBuffer::Committed(c, _) => c,
        }
    }

    /// Submits the buffer. Operations can no longer be added.
    pub fn commit(&mut self)
        ensures
            final(self)@ == (CommandBufferModel { committed: true, ..old(self)@ }),
    {
        let mut taken = MTLIOCommandBuffer::Encoding(
            CommandBufferContents {
                label: String::new(),
                retains_references: false,
                enqueued: false,
                ops: Vec::new(),
            },
        );
        std::mem::swap(self, &mut taken);
        *self = match taken {
            MTLIOCommandBuffer::Encoding(c) => MTLIOCommandBuffer::Committed(c, MTLIOStatus::pending),
            MTLIOCommandBuffer::Committed(c, s) => MTLIOCommandBuffer::Committed(c, s),
        };
    }

    /// Reserves the buffer's place in its queue's order. It has no effect
    /// on a committed buffer.
    pub fn enqueue(&mut self)
        ensures
            final(self)@ == (CommandBufferModel {
                enqueued: old(self)@.enqueued || !old(self)@.committed,
                ..old(self)@
            }),
    {
        if let MTLIOCommandBuffer::Encoding(c) = self {
            c.enqueued = true;
        }
    }

    pub fn label(&self) -> (r: &str)
        ensures
            r@ == self@.label,
    {
        self.contents().label.as_str()
    }

    pub fn set_label(&mut self, label: &str)
        ensures
            final(self)@ == (CommandBufferModel { label: label@, ..old(self)@ }),
    {
        match self {
            MTLIOCommandBuffer::Encoding(c) => {
                c.label = label.to_owned();
            },
            MTLIOCommandBuffer::Committed(c, _) => {
                c.label = label.to_owned();
            },
        }
    }

    /// Whether the buffer keeps its own references to what it touches.
    pub fn retains_references(&self) -> (r: bool)
        ensures
            r == self@.retains_references,
    {
        self.contents().retains_references
    }

    /// The operations gathered so far.
    pub fn operations(&self) -> (r: &[LoadOp])
        ensures
            r@ == self@.ops,
    {
        self.contents().ops.as_slice()
    }

    /// Adds an operation. A committed buffer takes no more.
    pub fn push_operation(&mut self, op: LoadOp)
        ensures
            !old(self)@.committed ==> final(self)@.status == MTLIOStatus::pending,
            final(self)@ == (CommandBufferModel {
                ops: if old(self)@.committed {
                    old(self)@.ops
                } else {
                    old(self)@.ops.push(op)
                },
                ..old(self)@
            }),
    {
        if let MTLIOCommandBuffer::Encoding(c) = self {
            c.ops.push(op);
        }
    }

    /// Adds a load of `size` bytes of the handle's content, from
    /// `source_handle_offset`, into `buffer` at `offset`.
    pub fn load_buffer(
        &mut self,
        buffer: BufferId,
        offset: u64,
        size: u64,
        source_handle: HandleId,
        source_handle_offset: u64,
    )
        ensures
            !old(self)@.committed ==> final(self)@.status == MTLIOStatus::pending,
            final(self)@ == (CommandBufferModel {
                ops: if old(self)@.committed {
                    old(self)@.ops
                } else {
                    old(self)@.ops.push(
                        LoadOp::Buffer {
                            buffer,
                            offset,
                            size,
                            handle: source_handle,
                            source_offset: source_handle_offset,
                        },
                    )
                },
                ..old(self)@
            }),
    {
        self.push_operation(
            LoadOp::Buffer {
                buffer,
                offset,
                size,
                handle: source_handle,
                source_offset: source_handle_offset,
            },
        );
    }

    /// Adds a load of a region of the handle's content into one image of
    /// `texture`.
    pub fn load_texture(
        &mut self,
        texture: TextureId,
        slice: u64,
        level: u64,
        size: MTLSize,
        source_bytes_per_row: u64,
        source_bytes_per_image: u64,
        destination_origin: MTLOrigin,
        source_handle: HandleId,
        source_handle_offset: u64,
    )
        ensures
            !old(self)@.committed ==> final(self)@.status == MTLIOStatus::pending,
            final(self)@ == (CommandBufferModel {
                ops: if old(self)@.committed {
                    old(self)@.ops
                } else {
                    old(self)@.ops.push(
                        LoadOp::Texture {
                            texture,
                            slice,
                            level,
                            region: RegionCopy {
                                size,
                                origin: destination_origin,
                                bytes_per_row: source_bytes_per_row,
                                bytes_per_image: source_bytes_per_image,
                                source_offset: source_handle_offset,
                            },
                            handle: source_handle,
                        },
                    )
                },
                ..old(self)@
            }),
    {
        self.push_operation(
            LoadOp::Texture {
                texture,
                slice,
                level,
                region: RegionCopy {
                    size,
                    origin: destination_origin,
                    bytes_per_row: source_bytes_per_row,
                    bytes_per_image: source_bytes_per_image,
                    source_offset: source_handle_offset,
                },
                handle: source_handle,
            },
        );
    }

    pub fn status(&self) -> (r: MTLIOStatus)
        ensures
            r == self@.status,
            !self@.committed ==> r == MTLIOStatus::pending,
    {
        match self {
            MTLIOCommandBuffer::Encoding(_) => MTLIOStatus::pending,
            MTLIOCommandBuffer::Committed(_, s) => *s,
        }
    }

    /// Runs a committed, pending buffer to its end on `device`: every
    /// operation in order, then `complete` if all succeeded, else `error`.
    /// A buffer that is not committed, or already settled, is left as it
    /// is, and so is the device.
    pub fn wait_until_completed(&mut self, device: &mut Device)
        requires
            old(device)@.wf(),
        ensures
            final(device)@.wf(),
            old(self)@.committed && old(self)@.status == MTLIOStatus::pending ==> {
                &&& final(device)@ == run_ops(old(device)@, old(self)@.ops).0
                &&& final(self)@ == (CommandBufferModel {
                    status: if run_ops(old(device)@, old(self)@.ops).1 {
                        MTLIOStatus::complete
                    } else {
                        MTLIOStatus::error
                    },
                    ..old(self)@
                })
            },
            !(old(self)@.committed && old(self)@.status == MTLIOStatus::pending) ==> (final(device)@
                == old(device)@ && final(self)@ == old(self)@),
    {
        if let MTLIOCommandBuffer::Committed(c, status) = self {
            if *status == MTLIOStatus::pending {
                let mut all_ok = true;
                let mut i: usize = 0;
                while i < c.ops.len()
                    invariant
                        i <= c.ops@.len(),
                        c.ops@ == old(self)@.ops,
                        device@.wf(),
                        (device@, all_ok) == run_ops(old(device)@, c.ops@.take(i as int)),
                    decreases c.ops@.len() - i,
                {
                    let ok = device.execute(&c.ops[i]);
                    if !ok {
                        all_ok = false;
                    }
                    proof {
                        assert(c.ops@.take(i + 1).drop_last() =~= c.ops@.take(i as int));
                    }
                    i = i + 1;
                }
                proof {
                    assert(c.ops@.take(i as int) =~= c.ops@);
                }
                *status = if all_ok {
                    MTLIOStatus::complete
                } else {
                    MTLIOStatus::error
                };
            }
        }
    }

    /// Cancels a pending buffer: its operations will not run and it takes
    /// no more. A settled buffer is left as it is.
    pub fn try_cancel(&mut self)
        ensures
            old(self)@.status == MTLIOStatus::pending ==> final(self)@ == (CommandBufferModel {
                status: MTLIOStatus::cancelled,
                committed: true,
                ..old(self)@
            }),
            old(self)@.status != MTLIOStatus::pending ==> final(self)@ == old(self)@,
    {
        self.commit();
        if let MTLIOCommandBuffer::Committed(_, status) = self {
            if *status == MTLIOStatus::pending {
                *status = MTLIOStatus::cancelled;
            }
        }
    }
}

/// A source of command buffers, with the bounds it was made with.
pub struct MTLIOCommandQueue {
    label: String,
    descriptor: MTLIOCommandQueueDescriptor,
}

pub type IOCommandQueue = MTLIOCommandQueue;

pub type IOCommandQueueRef = MTLIOCommandQueue;

impl IOCommandQueue {
    pub closed spec fn spec_descriptor(&self) -> MTLIOCommandQueueDescriptor {
        self.descriptor
    }

    pub closed spec fn spec_label(&self) -> Seq<char> {
        self.label@
    }

    /// Makes a queue. A zero bound is a configuration error.
    pub fn new(descriptor: &MTLIOCommandQueueDescriptor) -> (r: Result<IOCommandQueue, IOError>)
        ensures
            r is Ok <==> descriptor.spec_is_valid(),
            r matches Err(e) ==> e == IOError::ConfigError,
            r matches Ok(q) ==> q.spec_descriptor() == *descriptor && q.spec_label()
                == Seq::<char>::empty(),
    {
        if !descriptor.is_valid() {
            return Err(IOError::ConfigError);
        }
        Ok(MTLIOCommandQueue { label: String::new(), descriptor: *descriptor })
    }
}

impl IOCommandQueueRef {
    pub fn label(&self) -> (r: &str)
        ensures
            r@ == self.spec_label(),
    {
        self.label.as_str()
    }

    pub fn set_label(&mut self, label: &str)
        ensures
            final(self).spec_label() == label@,
            final(self).spec_descriptor() == old(self).spec_descriptor(),
    {
        self.label = label.to_owned();
    }

    /// The bounds the queue was made with.
    pub fn descriptor(&self) -> (r: MTLIOCommandQueueDescriptor)
        ensures
            r == self.spec_descriptor(),
    {
        self.descriptor
    }

    /// A fresh, empty, pending buffer that keeps its own references.
    pub fn new_command_buffer(&self) -> (r: MTLIOCommandBuffer)
        ensures
            r@ == (CommandBufferModel {
                label: Seq::<char>::empty(),
                retains_references: true,
                ops: Seq::<LoadOp>::empty(),
                committed: false,
                enqueued: false,
                status: MTLIOStatus::pending,
            }),
    {
        MTLIOCommandBuffer::Encoding(
            CommandBufferContents {
                label: String::new(),
                retains_references: true,
                enqueued: false,
                ops: Vec::new(),
            },
        )
    }

    /// A fresh, empty, pending buffer that relies on its caller to keep
    /// what it touches alive.
    pub fn new_command_buffer_with_unretained_references(&self) -> (r: MTLIOCommandBuffer)
        ensures
            r@ == (CommandBufferModel {
                label: Seq::<char>::empty(),
                retains_references: false,
                ops: Seq::<LoadOp>::empty(),
                committed: false,
                enqueued: false,
                status: MTLIOStatus::pending,
            }),
    {
        MTLIOCommandBuffer::Encoding(
            CommandBufferContents {
                label: String::new(),
                retains_references: false,
                enqueued: false,
                ops: Vec::new(),
            },
        )
    }
}

} // verus!
