use rg3d::desc::PhysicsDesc;
use rg3d::entities::{BallJointDesc, JointParamsDesc, RigidBody};
use rg3d::handles::RigidBodyHandle;
use rg3d::math::{Scalar, UnitQuaternion, Vector3};
use rg3d::world::Physics;

fn small_world() -> Physics {
    let mut w = Physics::new();
    let b1 = w.add_body(RigidBody {
        position: Vector3::from_bits(0x3F80_0000, 0, 0),
        rotation: UnitQuaternion::identity(),
        linvel: Vector3::from_bits(1, 2, 3),
        angvel: Vector3::zero(),
        sleeping: true,
        status: rg3d::entities::BodyStatusDesc::Static,
        mass: Scalar::from_bits(0x4000_0000),
        x_rotation_locked: true,
        y_rotation_locked: false,
        z_rotation_locked: true,
        translation_locked: false,
        colliders: Vec::new(),
    });
    let b2 = w.add_body(RigidBody {
        position: Vector3::zero(),
        rotation: UnitQuaternion::identity(),
        linvel: Vector3::zero(),
        angvel: Vector3::zero(),
        sleeping: false,
        status: rg3d::entities::BodyStatusDesc::Dynamic,
        mass: Scalar::one(),
        x_rotation_locked: false,
        y_rotation_locked: false,
        z_rotation_locked: false,
        translation_locked: false,
        colliders: Vec::new(),
    });
    w.add_collider(
        rg3d::entities::Collider {
            shape: rg3d::shape::ColliderShape::Cuboid(rg3d::shape::CuboidDesc {
                half_extents: Vector3::from_bits(9, 9, 9),
            }),
            parent: rg3d::handles::SolverHandle { index: 0, generation: 0 },
            friction: Scalar::from_bits(0x3F00_0000),
            density: Some(Scalar::from_bits(0x3F80_0000)),
            restitution: Scalar::zero(),
            is_sensor: true,
            translation: Vector3::from_bits(5, 6, 7),
            rotation: UnitQuaternion::identity(),
            collision_groups: 0xFFFF_0001,
            solver_groups: u32::MAX,
        },
        &b1,
    );
    w.add_joint(
        &b1,
        &b2,
        JointParamsDesc::BallJoint(BallJointDesc {
            local_anchor1: Vector3::from_bits(1, 0, 0),
            local_anchor2: Vector3::from_bits(0, 1, 0),
        }),
    );
    w
}

#[test]
fn serialization_round_trip_is_byte_identical() {
    let w = small_world();
    let desc = w.generate_desc();
    let first = desc.save_bytes();
    let decoded = PhysicsDesc::load_bytes(&first).expect("a fresh save must deserialize");
    let second = decoded.save_bytes();
    assert_eq!(first, second);
    // And once more through the reloaded value.
    let decoded2 = PhysicsDesc::load_bytes(&second).expect("the second save must deserialize");
    let third = decoded2.save_bytes();
    assert_eq!(second, third);
}

#[test]
fn save_state_load_state_round_trip() {
    let w = small_world();
    let bytes = w.save_state();
    let mut w2 = Physics::new();
    w2.load_state(&bytes).expect("a saved world must load");
    let bytes2 = w2.save_state();
    assert_eq!(bytes, bytes2);
}

#[test]
fn truncated_stream_is_a_hard_error() {
    let w = small_world();
    let bytes = w.generate_desc().save_bytes();
    for cut in [0usize, 1, 4, 11, bytes.len() / 2, bytes.len() - 1] {
        let truncated: Vec<u8> = bytes[..cut].to_vec();
        assert!(PhysicsDesc::load_bytes(&truncated).is_err());
    }
}

#[test]
fn corrupt_discriminant_is_a_hard_error() {
    let w = small_world();
    let desc = w.generate_desc();
    let good = desc.save_bytes();
    // Corrupting the stream wholesale must never be silently accepted as
    // the same descriptor set.
    let mut bad = good.clone();
    let last = bad.len() - 1;
    bad[last] ^= 0xFF;
    match PhysicsDesc::load_bytes(&bad) {
        Ok(d) => assert_ne!(d.save_bytes(), good),
        Err(_) => {}
    }
    // An unknown schema version is rejected outright.
    let mut wrong_version = good.clone();
    wrong_version[0] = 0x7F;
    assert!(PhysicsDesc::load_bytes(&wrong_version).is_err());
}

#[test]
fn empty_world_round_trips() {
    let w = Physics::new();
    let desc = w.generate_desc();
    let bytes = desc.save_bytes();
    let decoded = PhysicsDesc::load_bytes(&bytes).unwrap();
    assert_eq!(decoded.bodies.len(), 0);
    assert_eq!(decoded.colliders.len(), 0);
    assert_eq!(decoded.joints.len(), 0);
    assert_eq!(decoded.save_bytes(), bytes);
}

#[test]
fn default_descriptor_set_is_well_formed() {
    let d = PhysicsDesc::default();
    assert!(d.is_well_formed());
    assert_eq!(d.integration_parameters.max_velocity_iterations, 4);
    assert_eq!(d.integration_parameters.min_island_size, 128);
    // Default gravity points straight down at standard strength.
    assert_eq!(d.gravity.y.bits, 0xC11C_F5C3);
    assert_eq!(d.gravity.x.bits, 0);
}

#[test]
fn malformed_descriptor_set_is_rejected() {
    let w = small_world();
    let mut desc = w.generate_desc();
    // Point a collider at a body handle no table knows: structurally
    // unsound, so the read path must refuse the bytes.
    desc.colliders[0].parent = RigidBodyHandle { id: 0xDEAD_BEEF };
    assert!(!desc.is_well_formed());
    let bytes = desc.save_bytes();
    assert!(PhysicsDesc::load_bytes(&bytes).is_err());
}
