use rg3d::binder::PhysicsBinder;
use rg3d::entities::{BodyStatusDesc, Collider, JointParamsDesc, RigidBody, BallJointDesc};
use rg3d::handles::NodeHandle;
use rg3d::math::{Scalar, UnitQuaternion, Vector3};
use rg3d::scene::{SceneNodeGeometry, SceneSnapshot, Triangle};
use rg3d::shape::{BallDesc, ColliderShape, ColliderShapeDesc};
use rg3d::world::Physics;

fn test_body(x_bits: u32) -> RigidBody {
    RigidBody {
        position: Vector3::from_bits(x_bits, 0, 0),
        rotation: UnitQuaternion::identity(),
        linvel: Vector3::zero(),
        angvel: Vector3::zero(),
        sleeping: false,
        status: BodyStatusDesc::Dynamic,
        mass: Scalar::one(),
        x_rotation_locked: false,
        y_rotation_locked: false,
        z_rotation_locked: false,
        translation_locked: false,
        colliders: Vec::new(),
    }
}

fn ball_collider(radius_bits: u32) -> Collider {
    Collider {
        shape: ColliderShape::Ball(BallDesc { radius: Scalar::from_bits(radius_bits) }),
        parent: rg3d::handles::SolverHandle { index: 0, generation: 0 },
        friction: Scalar::from_bits(0x3F00_0000),
        density: None,
        restitution: Scalar::zero(),
        is_sensor: false,
        translation: Vector3::zero(),
        rotation: UnitQuaternion::identity(),
        collision_groups: u32::MAX,
        solver_groups: u32::MAX,
    }
}

#[test]
fn add_body_mints_fresh_handles() {
    let mut w = Physics::new();
    let h1 = w.add_body(test_body(1));
    let h2 = w.add_body(test_body(2));
    assert_ne!(h1, h2);
    assert!(w.contains_body(&h1));
    let removed = w.remove_body(&h1);
    assert!(removed.is_some());
    assert!(!w.contains_body(&h1));
    // A handle minted after a removal never equals the removed one.
    let h3 = w.add_body(test_body(3));
    assert_ne!(h3, h1);
    assert_ne!(h3, h2);
}

#[test]
fn handle_table_stays_injective_over_add_remove() {
    let mut w = Physics::new();
    let mut handles = Vec::new();
    for i in 0..8u32 {
        handles.push(w.add_body(test_body(i)));
    }
    for h in handles.iter().step_by(2) {
        assert!(w.remove_body(h).is_some());
    }
    for i in 0..4u32 {
        handles.push(w.add_body(test_body(100 + i)));
    }
    let t = w.body_handle_map();
    // No engine identifier and no solver handle occurs twice.
    for i in 0..t.len() {
        for j in 0..t.len() {
            if i != j {
                assert_ne!(t.pair_at(i).engine, t.pair_at(j).engine);
                assert_ne!(t.pair_at(i).solver, t.pair_at(j).solver);
            }
        }
    }
}

#[test]
fn remove_body_cascades_colliders_and_joints() {
    let mut w = Physics::new();
    let b1 = w.add_body(test_body(1));
    let b2 = w.add_body(test_body(2));
    let c1 = w.add_collider(ball_collider(7), &b1);
    let c2 = w.add_collider(ball_collider(8), &b2);
    let j = w.add_joint(
        &b1,
        &b2,
        JointParamsDesc::BallJoint(BallJointDesc {
            local_anchor1: Vector3::zero(),
            local_anchor2: Vector3::zero(),
        }),
    );
    let removed = w.remove_body(&b1);
    assert!(removed.is_some());
    assert!(w.body(&b1).is_none());
    assert!(w.collider(&c1).is_none());
    assert!(w.joint(&j).is_none());
    // The other body and its collider survive.
    assert!(w.body(&b2).is_some());
    assert!(w.collider(&c2).is_some());
}

#[test]
fn stale_handle_lookups_report_not_found() {
    let mut w = Physics::new();
    let b = w.add_body(test_body(1));
    let c = w.add_collider(ball_collider(3), &b);
    assert_eq!(w.collider_parent(&c), Some(b));
    assert!(w.remove_collider(&c).is_some());
    assert!(w.remove_collider(&c).is_none());
    assert!(w.collider(&c).is_none());
    assert!(w.remove_body(&b).is_some());
    assert!(w.remove_body(&b).is_none());
}

fn one_node_snapshot(node: NodeHandle, tris: Vec<Triangle>) -> SceneSnapshot {
    SceneSnapshot::new(vec![SceneNodeGeometry {
        handle: node,
        global_rotation: UnitQuaternion::identity(),
        global_position: Vector3::zero(),
        triangles: tris,
    }])
}

#[test]
fn make_trimesh_welds_duplicate_vertices() {
    let node = NodeHandle { index: 1, generation: 0 };
    let a = Vector3::from_bits(1, 2, 3);
    let b = Vector3::from_bits(4, 5, 6);
    let c = Vector3::from_bits(7, 8, 9);
    let d = Vector3::from_bits(10, 11, 12);
    let graph = one_node_snapshot(
        node,
        vec![Triangle { a, b, c }, Triangle { a: c, b, c: d }],
    );
    let mut log = Vec::new();
    let mesh = Physics::make_trimesh(node, &graph, &mut log);
    assert!(log.is_empty());
    // Six corners weld into four distinct vertices.
    assert_eq!(mesh.vertices.len(), 4);
    assert_eq!(mesh.triangles.len(), 2);
    assert_eq!(mesh.vertices[mesh.triangles[0].a as usize], a);
    assert_eq!(mesh.vertices[mesh.triangles[0].b as usize], b);
    assert_eq!(mesh.vertices[mesh.triangles[0].c as usize], c);
    assert_eq!(mesh.vertices[mesh.triangles[1].a as usize], c);
    assert_eq!(mesh.vertices[mesh.triangles[1].b as usize], b);
    assert_eq!(mesh.vertices[mesh.triangles[1].c as usize], d);
}

#[test]
fn make_trimesh_empty_subtree_gives_placeholder_and_one_warning() {
    let node = NodeHandle { index: 2, generation: 0 };
    let graph = one_node_snapshot(node, Vec::new());
    let mut log = Vec::new();
    let mesh = Physics::make_trimesh(node, &graph, &mut log);
    assert_eq!(log.len(), 1);
    assert_eq!(log[0].kind, rg3d::log::MessageKind::Warning);
    assert_eq!(log[0].node, Some(node));
    assert_eq!(mesh.vertices, vec![Vector3::zero()]);
    assert_eq!(mesh.triangles.len(), 1);
    assert_eq!(mesh.triangles[0].a, 0);
    assert_eq!(mesh.triangles[0].b, 0);
    assert_eq!(mesh.triangles[0].c, 0);
}

#[test]
fn generate_desc_then_resolve_reproduces_world() {
    let mut w = Physics::new();
    let b1 = w.add_body(test_body(11));
    let b2 = w.add_body(test_body(22));
    w.add_collider(ball_collider(5), &b1);
    w.add_joint(
        &b1,
        &b2,
        JointParamsDesc::BallJoint(BallJointDesc {
            local_anchor1: Vector3::from_bits(1, 1, 1),
            local_anchor2: Vector3::zero(),
        }),
    );
    let desc = w.generate_desc();

    let mut w2 = Physics::new();
    w2.desc = Some(desc);
    let binder = PhysicsBinder::new();
    let graph = SceneSnapshot::new(Vec::new());
    let mut log = Vec::new();
    w2.resolve(&binder, &graph, &mut log);

    // Same counts, same engine handles, same body state.
    assert_eq!(w2.body_handle_map().len(), w.body_handle_map().len());
    assert_eq!(w2.collider_handle_map().len(), w.collider_handle_map().len());
    assert_eq!(w2.joint_handle_map().len(), w.joint_handle_map().len());
    let body1 = w.body(&b1).unwrap().clone();
    let body1_copy = w2.body(&b1).unwrap().clone();
    assert_eq!(body1.position, body1_copy.position);
    assert_eq!(body1.mass, body1_copy.mass);
    assert_eq!(body1.status, body1_copy.status);
    let body2_copy = w2.body(&b2).unwrap();
    assert_eq!(body2_copy.position, Vector3::from_bits(22, 0, 0));
}

#[test]
fn resolve_skips_trimesh_without_binding_and_reports_error() {
    let mut w = Physics::new();
    let b = w.add_body(test_body(1));
    let trimesh = Collider {
        shape: ColliderShape::Trimesh(rg3d::shape::TrimeshShape {
            vertices: vec![Vector3::zero()],
            triangles: vec![rg3d::shape::IndexTriangle { a: 0, b: 0, c: 0 }],
        }),
        ..ball_collider(0)
    };
    let c = w.add_collider(trimesh, &b);
    let desc = w.generate_desc();

    let mut w2 = Physics::new();
    w2.desc = Some(desc);
    let binder = PhysicsBinder::new();
    let graph = SceneSnapshot::new(Vec::new());
    let mut log = Vec::new();
    w2.resolve(&binder, &graph, &mut log);
    // The collider could not be rebuilt: error logged, lookup reports absent.
    assert!(log.iter().any(|e| e.kind == rg3d::log::MessageKind::Error));
    assert!(w2.collider(&c).is_none());
    assert!(w2.body(&b).is_some());
}

#[test]
fn embed_one_body_one_trimesh_collider() {
    // Source resource: one body with one trimesh collider, zero joints.
    let mut src = Physics::new();
    let src_body = src.add_body(test_body(42));
    let trimesh = Collider {
        shape: ColliderShape::Trimesh(rg3d::shape::TrimeshShape {
            vertices: vec![Vector3::zero()],
            triangles: vec![rg3d::shape::IndexTriangle { a: 0, b: 0, c: 0 }],
        }),
        ..ball_collider(0)
    };
    src.add_collider(trimesh, &src_body);
    let mut src_binder = PhysicsBinder::new();
    let src_node = NodeHandle { index: 7, generation: 0 };
    src_binder.bind(src_node, src_body.id);

    // Host scene: the cloned node carries baked geometry.
    let host_node = NodeHandle { index: 99, generation: 1 };
    let a = Vector3::from_bits(1, 0, 0);
    let b = Vector3::from_bits(0, 1, 0);
    let c = Vector3::from_bits(0, 0, 1);
    let graph = one_node_snapshot(host_node, vec![Triangle { a, b, c }]);
    let remap = rg3d::scene::NodeRemap::new(vec![rg3d::scene::RemapEntry {
        from: src_node,
        to: host_node,
    }]);

    let mut host = Physics::new();
    let mut host_binder = PhysicsBinder::new();
    let mut log = Vec::new();
    host.embed_resource(&mut host_binder, &graph, &remap, &src_binder, &src, 5, &mut log);

    // Exactly one new body, one collider, and the link is recorded.
    assert_eq!(host.body_handle_map().len(), 1);
    assert_eq!(host.collider_handle_map().len(), 1);
    assert_eq!(host.joint_handle_map().len(), 0);
    assert_eq!(host.embedded_resources.len(), 1);
    assert_eq!(host.embedded_resources[0].model, 5);
    assert_eq!(host.embedded_resources[0].bodies.len(), 1);
    // The new body carries the source body's state and is bound to the host node.
    let new_body_id = host.embedded_resources[0].bodies.pair_at(0).to;
    let new_body = rg3d::handles::RigidBodyHandle { id: new_body_id };
    let nb = host.body(&new_body).unwrap();
    assert_eq!(nb.position, Vector3::from_bits(42, 0, 0));
    assert_eq!(host_binder.node_of(new_body_id), Some(host_node));
    // The collider's geometry was re-derived from the host node's baked
    // vertices, not copied from the source.
    let ch = host.collider_handle_map().pair_at(0);
    let col = host.collider_solver(ch.solver).unwrap();
    match &col.shape {
        ColliderShape::Trimesh(mesh) => {
            assert_eq!(mesh.vertices, vec![a, b, c]);
            assert_eq!(mesh.triangles.len(), 1);
        }
        other => panic!("expected a trimesh, got {:?}", other),
    }
}

#[test]
fn shape_discriminants_round_trip() {
    for id in 0..10u32 {
        let d = ColliderShapeDesc::from_id(id).unwrap();
        assert_eq!(d.id(), id);
    }
    assert!(ColliderShapeDesc::from_id(10).is_err());
    assert!(BodyStatusDesc::from_id(3).is_err());
    for id in 0..3u32 {
        assert_eq!(BodyStatusDesc::from_id(id).unwrap().id(), id);
    }
    for id in 0..4u32 {
        assert_eq!(JointParamsDesc::from_id(id).unwrap().id(), id);
    }
    assert!(JointParamsDesc::from_id(4).is_err());
}

#[test]
fn state_updates_touch_only_their_target() {
    let mut w = Physics::new();
    let b1 = w.add_body(test_body(1));
    let b2 = w.add_body(test_body(2));
    let c = w.add_collider(ball_collider(4), &b1);
    assert!(w.update_body_state(
        &b1,
        Vector3::from_bits(9, 9, 9),
        UnitQuaternion::identity(),
        Vector3::from_bits(1, 0, 0),
        Vector3::zero(),
        true,
    ));
    assert_eq!(w.body(&b1).unwrap().position, Vector3::from_bits(9, 9, 9));
    assert!(w.body(&b1).unwrap().sleeping);
    assert_eq!(w.body(&b2).unwrap().position, Vector3::from_bits(2, 0, 0));
    assert!(w.update_collider_material(&c, Scalar::from_bits(77), Scalar::zero(), true, 3, 5));
    let col = w.collider(&c).unwrap();
    assert_eq!(col.friction.bits, 77);
    assert!(col.is_sensor);
    assert_eq!(col.collision_groups, 3);
    // Unknown handles are reported, never fatal.
    let ghost_body = rg3d::handles::RigidBodyHandle { id: 0xFFFF };
    assert!(!w.update_body_state(
        &ghost_body,
        Vector3::zero(),
        UnitQuaternion::identity(),
        Vector3::zero(),
        Vector3::zero(),
        false,
    ));
}

#[test]
fn remove_joint_wakes_both_endpoint_bodies() {
    let mut w = Physics::new();
    let mut sleeping = test_body(1);
    sleeping.sleeping = true;
    let b1 = w.add_body(sleeping.clone());
    let b2 = w.add_body(RigidBody { position: Vector3::from_bits(2, 0, 0), ..sleeping.clone() });
    let j = w.add_joint(
        &b1,
        &b2,
        JointParamsDesc::BallJoint(BallJointDesc {
            local_anchor1: Vector3::zero(),
            local_anchor2: Vector3::zero(),
        }),
    );
    let removed = w.remove_joint(&j, true);
    assert!(removed.is_some());
    assert!(!w.body(&b1).expect("endpoint stays").sleeping);
    assert!(!w.body(&b2).expect("endpoint stays").sleeping);

    // Without the wake-up request the sleeping flags stay untouched.
    let mut w2 = Physics::new();
    let c1 = w2.add_body(sleeping.clone());
    let c2 = w2.add_body(RigidBody { position: Vector3::from_bits(2, 0, 0), ..sleeping });
    let j2 = w2.add_joint(
        &c1,
        &c2,
        JointParamsDesc::BallJoint(BallJointDesc {
            local_anchor1: Vector3::zero(),
            local_anchor2: Vector3::zero(),
        }),
    );
    let removed2 = w2.remove_joint(&j2, false);
    assert!(removed2.is_some());
    assert!(w2.body(&c1).expect("endpoint stays").sleeping);
    assert!(w2.body(&c2).expect("endpoint stays").sleeping);
}

#[test]
fn zero_min_island_size_is_repaired_on_load() {
    let mut w = Physics::new();
    w.integration_parameters.min_island_size = 0;
    w.add_body(test_body(9));
    let bytes = w.save_state();
    let mut w2 = Physics::new();
    w2.load_state(&bytes).expect("a saved world must load");
    let pending = w2.desc.as_ref().expect("load leaves a pending descriptor set");
    assert_eq!(pending.integration_parameters.min_island_size, 128);
    // A non-zero stored value comes back as it was written.
    let mut w3 = Physics::new();
    w3.integration_parameters.min_island_size = 7;
    let bytes3 = w3.save_state();
    let mut w4 = Physics::new();
    w4.load_state(&bytes3).expect("a saved world must load");
    let pending4 = w4.desc.as_ref().expect("load leaves a pending descriptor set");
    assert_eq!(pending4.integration_parameters.min_island_size, 7);
}

#[test]
fn embed_copies_joints_across_remapped_bodies() {
    let mut src = Physics::new();
    let sb1 = src.add_body(test_body(1));
    let sb2 = src.add_body(test_body(2));
    src.add_collider(ball_collider(3), &sb1);
    let params = JointParamsDesc::BallJoint(BallJointDesc {
        local_anchor1: Vector3::from_bits(9, 0, 0),
        local_anchor2: Vector3::zero(),
    });
    src.add_joint(&sb1, &sb2, params);

    let graph = SceneSnapshot::new(Vec::new());
    let remap = rg3d::scene::NodeRemap::new(Vec::new());
    let src_binder = PhysicsBinder::new();
    let mut host = Physics::new();
    // A pre-existing host body must be untouched by the embed.
    let existing = host.add_body(test_body(77));
    let mut host_binder = PhysicsBinder::new();
    let mut log = Vec::new();
    host.embed_resource(&mut host_binder, &graph, &remap, &src_binder, &src, 8, &mut log);

    let link = &host.embedded_resources[0];
    assert_eq!(link.bodies.len(), 2);
    assert_eq!(link.colliders.len(), 1);
    assert_eq!(link.joints.len(), 1);
    assert_eq!(host.joint_handle_map().len(), 1);
    // The host joint carries the source parameters and joins the link
    // images of the source endpoints.
    let jh = rg3d::handles::JointHandle { id: link.joints.pair_at(0).to };
    let hj = host.joint(&jh).expect("embedded joint exists");
    assert_eq!(hj.params, params);
    let hb1 = link.bodies.get(sb1.id).expect("first endpoint linked");
    let hb2 = link.bodies.get(sb2.id).expect("second endpoint linked");
    assert_ne!(hb1, hb2);
    let hb1h = rg3d::handles::RigidBodyHandle { id: hb1 };
    let hb2h = rg3d::handles::RigidBodyHandle { id: hb2 };
    assert_eq!(host.body(&hb1h).unwrap().position, Vector3::from_bits(1, 0, 0));
    assert_eq!(host.body(&hb2h).unwrap().position, Vector3::from_bits(2, 0, 0));
    // The pre-existing host body kept its state.
    assert_eq!(host.body(&existing).unwrap().position, Vector3::from_bits(77, 0, 0));
}
