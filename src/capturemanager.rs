//! Frame capture: scopes that bracket work, and the manager that records it.
//!
//! One manager serves a process; the application owns it and hands it out.

use vstd::prelude::*;

verus! {

/// What a capture records.
#[derive(Copy, Clone, Debug, PartialEq, Eq, Hash, Structural)]
pub enum CaptureTarget {
    Device,
    CommandQueue,
    /// The scope with this number.
    Scope(u64),
}

/// A span of work that a capture may be limited to.
pub struct MTLCaptureScope {
    id: u64,
    target: CaptureTarget,
    label: String,
    open: bool,
}

pub type CaptureScope = MTLCaptureScope;

pub type CaptureScopeRef = MTLCaptureScope;

impl CaptureScopeRef {
    pub closed spec fn spec_id(&self) -> u64 {
        self.id
    }

    pub closed spec fn spec_target(&self) -> CaptureTarget {
        self.target
    }

    pub closed spec fn spec_label(&self) -> Seq<char> {
        self.label@
    }

    /// Whether the scope has begun and not yet ended.
    pub closed spec fn spec_is_open(&self) -> bool {
        self.open
    }

    pub fn id(&self) -> (r: u64)
        ensures
            r == self.spec_id(),
    {
        self.id
    }

    pub fn begin_scope(&mut self)
        ensures
            final(self).spec_is_open(),
            final(self).spec_id() == old(self).spec_id(),
            final(self).spec_target() == old(self).spec_target(),
            final(self).spec_label() == old(self).spec_label(),
    {
        self.open = true;
    }

    pub fn end_scope(&mut self)
        ensures
            !final(self).spec_is_open(),
            final(self).spec_id() == old(self).spec_id(),
            final(self).spec_target() == old(self).spec_target(),
            final(self).spec_label() == old(self).spec_label(),
    {
        self.open = false;
    }

    pub fn is_open(&self) -> (r: bool)
        ensures
            r == self.spec_is_open(),
    {
        self.open
    }

    pub fn label(&self) -> (r: &str)
        ensures
            r@ == self.spec_label(),
    {
        self.label.as_str()
    }

    pub fn set_label(&mut self, label: &str)
        ensures
            final(self).spec_label() == label@,
            final(self).spec_id() == old(self).spec_id(),
            final(self).spec_target() == old(self).spec_target(),
            final(self).spec_is_open() == old(self).spec_is_open(),
    {
        self.label = label.to_owned();
    }
}

/// Records captures; at most one runs at a time.
pub struct MTLCaptureManager {
    next_scope: u64,
    default_scope: Option<u64>,
    capturing: Option<CaptureTarget>,
}

pub type CaptureManager = MTLCaptureManager;

pub type CaptureManagerRef = MTLCaptureManager;

impl CaptureManager {
    pub closed spec fn spec_next_scope(&self) -> u64 {
        self.next_scope
    }

    pub closed spec fn spec_default_scope(&self) -> Option<u64> {
        self.default_scope
    }

    /// What is being captured, if anything.
    pub closed spec fn spec_capturing(&self) -> Option<CaptureTarget> {
        self.capturing
    }

    pub fn new() -> (r: Self)
        ensures
            r.spec_next_scope() == 0,
            r.spec_default_scope() is None,
            r.spec_capturing() is None,
    {
        MTLCaptureManager { next_scope: 0, default_scope: None, capturing: None }
    }
}

impl CaptureManagerRef {
    fn new_scope(&mut self, target: CaptureTarget) -> (r: MTLCaptureScope)
        ensures
            r.spec_id() == old(self).spec_next_scope(),
            r.spec_target() == target,
            r.spec_label() == Seq::<char>::empty(),
            !r.spec_is_open(),
            final(self).spec_next_scope() == if old(self).spec_next_scope() < u64::MAX {
                (old(self).spec_next_scope() + 1) as u64
            } else {
                old(self).spec_next_scope()
            },
            final(self).spec_default_scope() == old(self).spec_default_scope(),
            final(self).spec_capturing() == old(self).spec_capturing(),
    {
        let id = self.next_scope;
        self.next_scope = if id < u64::MAX {
            id + 1
        } else {
            id
        };
        MTLCaptureScope { id, target, label: String::new(), open: false }
    }

    /// A new scope over the work of a device.
    pub fn new_capture_scope_with_device(&mut self) -> (r: MTLCaptureScope)
        ensures
            r.spec_id() == old(self).spec_next_scope(),
            r.spec_target() == CaptureTarget::Device,
            r.spec_label() == Seq::<char>::empty(),
            !r.spec_is_open(),
            final(self).spec_next_scope() == if old(self).spec_next_scope() < u64::MAX {
                (old(self).spec_next_scope() + 1) as u64
            } else {
                old(self).spec_next_scope()
            },
            final(self).spec_default_scope() == old(self).spec_default_scope(),
            final(self).spec_capturing() == old(self).spec_capturing(),
    {
        self.new_scope(CaptureTarget::Device)
    }

    /// A new scope over the work of a command queue.
    pub fn new_capture_scope_with_command_queue(&mut self) -> (r: MTLCaptureScope)
        ensures
            r.spec_id() == old(self).spec_next_scope(),
            r.spec_target() == CaptureTarget::CommandQueue,
            r.spec_label() == Seq::<char>::empty(),
            !r.spec_is_open(),
            final(self).spec_next_scope() == if old(self).spec_next_scope() < u64::MAX {
                (old(self).spec_next_scope() + 1) as u64
            } else {
                old(self).spec_next_scope()
            },
            final(self).spec_default_scope() == old(self).spec_default_scope(),
            final(self).spec_capturing() == old(self).spec_capturing(),
    {
        self.new_scope(CaptureTarget::CommandQueue)
    }

    /// The number of the default scope, if one is set.
    pub fn default_capture_scope(&self) -> (r: Option<u64>)
        ensures
            r == self.spec_default_scope(),
    {
        self.default_scope
    }

    pub fn set_default_capture_scope(&mut self, scope: &MTLCaptureScope)
        ensures
            final(self).spec_default_scope() == Some(scope.spec_id()),
            final(self).spec_next_scope() == old(self).spec_next_scope(),
            final(self).spec_capturing() == old(self).spec_capturing(),
    {
        self.default_scope = Some(scope.id);
    }

    /// Starts a capture of `target`, unless one is running.
    fn start(&mut self, target: CaptureTarget)
        ensures
            final(self).spec_capturing() == if old(self).spec_capturing() is None {
                Some(target)
            } else {
                old(self).spec_capturing()
            },
            final(self).spec_next_scope() == old(self).spec_next_scope(),
            final(self).spec_default_scope() == old(self).spec_default_scope(),
    {
        if self.capturing.is_none() {
            self.capturing = Some(target);
        }
    }

    pub fn start_capture_with_device(&mut self)
        ensures
            final(self).spec_capturing() == if old(self).spec_capturing() is None {
                Some(CaptureTarget::Device)
            } else {
                old(self).spec_capturing()
            },
            final(self).spec_next_scope() == old(self).spec_next_scope(),
            final(self).spec_default_scope() == old(self).spec_default_scope(),
    {
        self.start(CaptureTarget::Device);
    }

    pub fn start_capture_with_command_queue(&mut self)
        ensures
            final(self).spec_capturing() == if old(self).spec_capturing() is None {
                Some(CaptureTarget::CommandQueue)
            } else {
                old(self).spec_capturing()
            },
            final(self).spec_next_scope() == old(self).spec_next_scope(),
            final(self).spec_default_scope() == old(self).spec_default_scope(),
    {
        self.start(CaptureTarget::CommandQueue);
    }

    pub fn start_capture_with_scope(&mut self, scope: &MTLCaptureScope)
        ensures
            final(self).spec_capturing() == if old(self).spec_capturing() is None {
                Some(CaptureTarget::Scope(scope.spec_id()))
            } else {
                old(self).spec_capturing()
            },
            final(self).spec_next_scope() == old(self).spec_next_scope(),
            final(self).spec_default_scope() == old(self).spec_default_scope(),
    {
        self.start(CaptureTarget::Scope(scope.id));
    }

    pub fn stop_capture(&mut self)
        ensures
            final(self).spec_capturing() is None,
            final(self).spec_next_scope() == old(self).spec_next_scope(),
            final(self).spec_default_scope() == old(self).spec_default_scope(),
    {
        self.capturing = None;
    }

    pub fn is_capturing(&self) -> (r: bool)
        ensures
            r == self.spec_capturing() is Some,
    {
        self.capturing.is_some()
    }
}

} // verus!
