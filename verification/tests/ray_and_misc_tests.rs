use rg3d::entities::{BodyStatusDesc, RigidBody};
use rg3d::handles::SolverHandle;
use rg3d::math::{Scalar, UnitQuaternion, Vector3};
use rg3d::ray::{
    FeatureId, FixedQueryBuffer, QueryResultsStorage, RawIntersection, Ray, RayCastOptions,
};
use rg3d::stats::PhysicsPerformanceStatistics;
use rg3d::texture::{ceil_div_4, image_1d_size_bytes, image_2d_size_bytes, image_3d_size_bytes,
    GpuTextureKind, MagnificationFilter, PixelKind};
use rg3d::debug::{build_line_buffers, DebugLine, DebugShader};
use rg3d::world::Physics;

fn plain_body() -> RigidBody {
    RigidBody {
        position: Vector3::zero(),
        rotation: UnitQuaternion::identity(),
        linvel: Vector3::zero(),
        angvel: Vector3::zero(),
        sleeping: false,
        status: BodyStatusDesc::Dynamic,
        mass: Scalar::one(),
        x_rotation_locked: false,
        y_rotation_locked: false,
        z_rotation_locked: false,
        translation_locked: false,
        colliders: Vec::new(),
    }
}

fn raw_hit(collider: SolverHandle, toi_bits: u32) -> RawIntersection {
    RawIntersection {
        collider,
        normal: Vector3::from_bits(0, 0x3F80_0000, 0),
        position: Vector3::zero(),
        feature: FeatureId::Unknown,
        toi: Scalar::from_bits(toi_bits),
    }
}

// Bit patterns of 1.0, 2.0, 3.0 and 5.0: for non-negative numbers the
// unsigned order of the patterns is the numeric order.
const ONE: u32 = 0x3F80_0000;
const TWO: u32 = 0x4000_0000;
const THREE: u32 = 0x4040_0000;
const FIVE: u32 = 0x40A0_0000;

#[test]
fn cast_ray_sorts_and_respects_max_length() {
    let mut w = Physics::new();
    let b = w.add_body(plain_body());
    let c = w.add_collider(
        rg3d::entities::Collider {
            shape: rg3d::shape::ColliderShape::Ball(rg3d::shape::BallDesc {
                radius: Scalar::from_bits(ONE),
            }),
            parent: SolverHandle { index: 0, generation: 0 },
            friction: Scalar::zero(),
            density: None,
            restitution: Scalar::zero(),
            is_sensor: false,
            translation: Vector3::zero(),
            rotation: UnitQuaternion::identity(),
            collision_groups: u32::MAX,
            solver_groups: u32::MAX,
        },
        &b,
    );
    let solver = w.collider_handle_map().pair_at(0).solver;
    let raw = vec![
        raw_hit(solver, THREE),
        raw_hit(solver, ONE),
        raw_hit(solver, FIVE),
        raw_hit(solver, TWO),
    ];
    let opts = RayCastOptions {
        ray: Ray { origin: Vector3::zero(), dir: Vector3::from_bits(ONE, 0, 0) },
        max_len: Scalar::from_bits(THREE),
        groups: u32::MAX,
        sort_results: true,
    };
    let mut buffer: Vec<rg3d::ray::Intersection> = Vec::new();
    w.cast_ray(opts, &raw, &mut buffer);
    // The hit at distance five exceeds the maximum length and is dropped;
    // the rest come back closest first, keyed by the engine handle.
    assert_eq!(buffer.len(), 3);
    assert_eq!(buffer[0].toi.bits, ONE);
    assert_eq!(buffer[1].toi.bits, TWO);
    assert_eq!(buffer[2].toi.bits, THREE);
    for hit in &buffer {
        assert_eq!(hit.collider, c);
    }
    // Unsorted: arrival order of the kept hits.
    let opts2 = RayCastOptions { sort_results: false, ..opts };
    let mut buffer2: Vec<rg3d::ray::Intersection> = Vec::new();
    w.cast_ray(opts2, &raw, &mut buffer2);
    assert_eq!(buffer2.len(), 3);
    assert_eq!(buffer2[0].toi.bits, THREE);
    assert_eq!(buffer2[1].toi.bits, ONE);
    assert_eq!(buffer2[2].toi.bits, TWO);
}

#[test]
fn fixed_query_buffer_reports_overflow() {
    let mut buf = FixedQueryBuffer::new(2);
    let hit = raw_hit(SolverHandle { index: 0, generation: 0 }, ONE);
    let i = rg3d::ray::Intersection {
        collider: rg3d::handles::ColliderHandle { id: 1 },
        normal: hit.normal,
        position: hit.position,
        feature: hit.feature,
        toi: hit.toi,
    };
    assert!(QueryResultsStorage::push(&mut buf, i));
    assert!(QueryResultsStorage::push(&mut buf, i));
    assert!(!QueryResultsStorage::push(&mut buf, i));
    assert_eq!(buf.results().len(), 2);
    QueryResultsStorage::clear(&mut buf);
    assert_eq!(buf.results().len(), 0);
}

#[test]
fn performance_counters_accumulate_and_reset() {
    let mut stats = PhysicsPerformanceStatistics::new();
    stats.add_step_time(250);
    stats.add_step_time(750);
    stats.add_ray_cast_time(40);
    assert_eq!(stats.step_time_nanos, 1000);
    assert_eq!(stats.total_ray_cast_time_nanos, 40);
    stats.add_step_time(u64::MAX);
    assert_eq!(stats.step_time_nanos, u64::MAX);
    stats.reset();
    assert_eq!(stats.step_time_nanos, 0);
    assert_eq!(stats.total_ray_cast_time_nanos, 0);
}

#[test]
fn texture_sizes_match_their_formulas() {
    assert_eq!(ceil_div_4(0), 0);
    assert_eq!(ceil_div_4(1), 1);
    assert_eq!(ceil_div_4(4), 1);
    assert_eq!(ceil_div_4(5), 2);
    assert_eq!(image_1d_size_bytes(PixelKind::RGBA8, 10), 40);
    assert_eq!(image_1d_size_bytes(PixelKind::DXT1RGB, 10), 3 * 8);
    assert_eq!(image_2d_size_bytes(PixelKind::RGB8, 4, 4), 48);
    assert_eq!(image_2d_size_bytes(PixelKind::DXT5RGBA, 8, 8), 4 * 16);
    assert_eq!(image_3d_size_bytes(PixelKind::R8, 4, 4, 4), 64);
    assert_eq!(image_3d_size_bytes(PixelKind::RGBA32F, 2, 2, 2), 128);
    assert!(!PixelKind::RGBA8.is_compressed());
    assert!(PixelKind::RG8RGTC.is_compressed());
    assert_eq!(PixelKind::RGBA16.unpack_alignment(), 8);
    assert_eq!(PixelKind::R8.unpack_alignment(), 1);
    let _ = GpuTextureKind::Rectangle { width: 4, height: 4 };
    let _ = MagnificationFilter::Nearest;
}

#[test]
fn debug_line_buffers_pair_vertices() {
    let lines = vec![
        DebugLine {
            begin: Vector3::from_bits(1, 1, 1),
            end: Vector3::from_bits(2, 2, 2),
            color: 0xFF00FF00,
        },
        DebugLine {
            begin: Vector3::from_bits(3, 3, 3),
            end: Vector3::from_bits(4, 4, 4),
            color: 0xFF0000FF,
        },
    ];
    let (vertices, indices) = build_line_buffers(&lines);
    assert_eq!(vertices.len(), 4);
    assert_eq!(indices.len(), 2);
    assert_eq!(vertices[0].position, lines[0].begin);
    assert_eq!(vertices[1].position, lines[0].end);
    assert_eq!(vertices[2].position, lines[1].begin);
    assert_eq!(vertices[3].position, lines[1].end);
    assert_eq!(vertices[3].color, 0xFF0000FF);
    assert_eq!(indices[0].begin, 0);
    assert_eq!(indices[0].end, 1);
    assert_eq!(indices[1].begin, 2);
    assert_eq!(indices[1].end, 3);
    let shader = DebugShader::new(17, 3);
    assert_eq!(shader.program, 17);
    assert_eq!(shader.wvp_matrix, 3);
}

#[test]
fn mesh_to_trimesh_places_static_body() {
    let node = rg3d::handles::NodeHandle { index: 4, generation: 0 };
    let graph = rg3d::scene::SceneSnapshot::new(vec![rg3d::scene::SceneNodeGeometry {
        handle: node,
        global_rotation: UnitQuaternion::identity(),
        global_position: Vector3::from_bits(7, 7, 7),
        triangles: vec![rg3d::scene::Triangle {
            a: Vector3::zero(),
            b: Vector3::from_bits(ONE, 0, 0),
            c: Vector3::from_bits(0, ONE, 0),
        }],
    }]);
    let mut w = Physics::new();
    let mut log = Vec::new();
    let h = w.mesh_to_trimesh(node, &graph, &mut log);
    let body = w.body(&h).unwrap();
    assert_eq!(body.status, BodyStatusDesc::Static);
    assert_eq!(body.position, Vector3::from_bits(7, 7, 7));
    assert_eq!(body.colliders.len(), 1);
}

#[test]
fn cast_ray_applies_interaction_group_mask() {
    let mut w = Physics::new();
    let b = w.add_body(plain_body());
    // Collider in group 1 accepting group 2 (memberships high half, filter low).
    let grouped = |mask: u32| rg3d::entities::Collider {
        shape: rg3d::shape::ColliderShape::Ball(rg3d::shape::BallDesc {
            radius: Scalar::from_bits(ONE),
        }),
        parent: SolverHandle { index: 0, generation: 0 },
        friction: Scalar::zero(),
        density: None,
        restitution: Scalar::zero(),
        is_sensor: false,
        translation: Vector3::zero(),
        rotation: UnitQuaternion::identity(),
        collision_groups: mask,
        solver_groups: u32::MAX,
    };
    let c_match = w.add_collider(grouped(0x0001_0002), &b);
    let c_miss = w.add_collider(grouped(0x0004_0008), &b);
    let s_match = w.collider_handle_map().pair_at(0).solver;
    let s_miss = w.collider_handle_map().pair_at(1).solver;
    let raw = vec![raw_hit(s_match, ONE), raw_hit(s_miss, TWO)];
    // Query in group 2 accepting group 1: matches the first collider only.
    let opts = RayCastOptions {
        ray: Ray { origin: Vector3::zero(), dir: Vector3::from_bits(ONE, 0, 0) },
        max_len: Scalar::from_bits(THREE),
        groups: 0x0002_0001,
        sort_results: true,
    };
    let mut buffer: Vec<rg3d::ray::Intersection> = Vec::new();
    let delivered = w.cast_ray(opts, &raw, &mut buffer);
    assert_eq!(delivered, 1);
    assert_eq!(buffer.len(), 1);
    assert_eq!(buffer[0].collider, c_match);
    assert_ne!(buffer[0].collider, c_miss);
    // An all-pass mask keeps both.
    let opts2 = RayCastOptions { groups: u32::MAX, ..opts };
    let mut buffer2: Vec<rg3d::ray::Intersection> = Vec::new();
    let delivered2 = w.cast_ray(opts2, &raw, &mut buffer2);
    assert_eq!(delivered2, 2);
    assert_eq!(buffer2.len(), 2);
}
