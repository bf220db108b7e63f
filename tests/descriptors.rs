use metal_io::capturemanager::{CaptureTarget, MTLCaptureManager};
use metal_io::raytracing::{
    MTLAccelerationStructure, MTLAccelerationStructureDescriptor,
    MTLAccelerationStructureGeometryDescriptor, MTLAccelerationStructureTriangleGeometryDescriptor,
    MTLIndexType, MTLInstanceAccelerationStructureDescriptor,
    MTLPrimitiveAccelerationStructureDescriptor,
};
use metal_io::BufferId;

#[test]
fn capture_lifecycle() {
    let mut manager = MTLCaptureManager::new();
    assert!(!manager.is_capturing());
    let mut scope = manager.new_capture_scope_with_device();
    let other = manager.new_capture_scope_with_command_queue();
    assert_eq!(scope.id(), 0);
    assert_eq!(other.id(), 1);
    assert_eq!(manager.default_capture_scope(), None);
    manager.set_default_capture_scope(&other);
    assert_eq!(manager.default_capture_scope(), Some(1));
    scope.set_label("frame");
    assert_eq!(scope.label(), "frame");
    scope.begin_scope();
    assert!(scope.is_open());
    scope.end_scope();
    assert!(!scope.is_open());
    manager.start_capture_with_scope(&scope);
    assert!(manager.is_capturing());
    manager.start_capture_with_device();
    manager.stop_capture();
    assert!(!manager.is_capturing());
    manager.start_capture_with_command_queue();
    assert!(manager.is_capturing());
    let _ = CaptureTarget::Scope(0);
}

#[test]
fn triangle_geometry_builder() {
    let mut t = MTLAccelerationStructureTriangleGeometryDescriptor::descriptor();
    assert_eq!(t.triangle_count, 0);
    assert_eq!(t.index_type, MTLIndexType::UInt32);
    t.set_vertex_buffer(Some(BufferId { index: 2 }));
    t.set_vertex_buffer_offset(16);
    t.set_vertex_format(30);
    t.set_vertex_stride(12);
    t.set_index_buffer(Some(BufferId { index: 3 }));
    t.set_index_buffer_offset(4);
    t.set_index_type(MTLIndexType::UInt16);
    t.set_triangle_count(7);
    assert_eq!(t.vertex_buffer, Some(BufferId { index: 2 }));
    assert_eq!((t.vertex_buffer_offset, t.vertex_format, t.vertex_stride), (16, 30, 12));
    assert_eq!((t.index_buffer, t.index_buffer_offset), (Some(BufferId { index: 3 }), 4));
    assert_eq!((t.index_type, t.triangle_count), (MTLIndexType::UInt16, 7));
    let mut g = MTLAccelerationStructureGeometryDescriptor::Triangle(t);
    g.set_opaque(true);
    g.set_label("floor");
    let MTLAccelerationStructureGeometryDescriptor::Triangle(t) = &g;
    assert!(t.opaque);
    assert_eq!(t.label, "floor");
    let mut p = MTLPrimitiveAccelerationStructureDescriptor::descriptor();
    p.set_geometry_descriptors(vec![g]);
    assert_eq!(p.geometry_descriptors.len(), 1);
    let _ = MTLAccelerationStructureDescriptor::Primitive(p);
}

#[test]
fn instance_descriptor_builder() {
    let mut d = MTLInstanceAccelerationStructureDescriptor::descriptor();
    assert_eq!(d.instance_count, 0);
    d.set_instanced_acceleration_structures(vec![MTLAccelerationStructure { index: 0 }]);
    d.set_instance_count(3);
    d.set_instance_descriptor_buffer(Some(BufferId { index: 1 }));
    assert_eq!(d.instanced_acceleration_structures, vec![MTLAccelerationStructure { index: 0 }]);
    assert_eq!(d.instance_count, 3);
    assert_eq!(d.instance_descriptor_buffer, Some(BufferId { index: 1 }));
    let _ = MTLAccelerationStructureDescriptor::Instance(d);
}
