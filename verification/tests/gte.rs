use psx_sdk::gte::math::{Mat3I16, Vec3I16, Vec3I32};
use psx_sdk::gte::normalize::normalize_classic_q12_scheduled;
use psx_sdk::gte::registers::{
    load_aabb_clip4, load_background_colour, load_depths3, load_depths4, load_far_colour,
    load_light_colour_matrix, load_light_matrix, load_rotation, load_translation, load_triangle,
    load_vertex, set_avsz_weights, set_depth_cue, set_projection_plane, set_screen_offset,
    vector_from_registers, Projected, RegisterWrite, TransformProbe,
};
use psx_sdk::gte::scene::{
    aabb_outside_clip4, average_cached_z3, average_cached_z4, average_z3_otz, average_z4_otz,
    classic_otz3_from_sum, classify_aabb_clip4, compose_rotation_scheduled,
    screen_area_and_average_cached_z3_scheduled, screen_area_and_classic_otz3_scheduled,
    screen_area_and_unpack_model_face_scheduled, screen_area_mac0, screen_area_mac0_scheduled,
    screen_triangle_back_facing, transform_vertex, transform_vertex_scheduled, AabbClipPlane,
    ClassicNormalizedVector,
};
use psx_sdk::gte::transform::{cos_1_3_12, sin_1_3_12};

#[test]
fn sin_cos_identity_at_cardinal_angles() {
    // Exact values at 0, π/2, π, 3π/2.
    assert_eq!(sin_1_3_12(0), 0);
    assert_eq!(cos_1_3_12(0), 0x1000);
    assert_eq!(sin_1_3_12(64), 0x1000);
    assert_eq!(cos_1_3_12(64), 0);
    assert_eq!(sin_1_3_12(128), 0);
    assert_eq!(cos_1_3_12(128), -0x1000);
    assert_eq!(sin_1_3_12(192), -0x1000);
    assert_eq!(cos_1_3_12(192), 0);
}

#[test]
fn sin_wraps_modulo_256() {
    // Angles outside 0..256 must wrap.
    assert_eq!(sin_1_3_12(256), sin_1_3_12(0));
    assert_eq!(sin_1_3_12(320), sin_1_3_12(64));
    assert_eq!(sin_1_3_12(65535), sin_1_3_12(255));
}

#[test]
fn sin_cos_pythagorean_identity_holds_approximately() {
    // sin²+cos² = 1.0² = 0x1000² = 0x100_0000.
    // Our values are approximate so allow a small tolerance.
    for angle in (0..256).step_by(7) {
        let s = sin_1_3_12(angle as u16) as i32;
        let c = cos_1_3_12(angle as u16) as i32;
        let sum = s * s + c * c;
        let expected = 0x0100_0000;
        // ±0.5% tolerance -- quarter-sine table rounds each entry.
        let tolerance = expected / 200;
        assert!(
            (sum - expected).abs() <= tolerance,
            "angle {angle}: sin²+cos² = {sum:#x}, expected ≈ {expected:#x}"
        );
    }
}

#[test]
fn sines_are_the_rounded_sines() {
    for angle in 0..256u16 {
        let exact = (angle as f64 * std::f64::consts::PI / 128.0).sin() * 4096.0;
        assert_eq!(sin_1_3_12(angle) as f64, exact.round(), "angle {angle}");
    }
}

#[test]
fn identity_mul_identity_is_identity() {
    let id = Mat3I16::identity();
    let prod = id.mul(&id);
    assert_eq!(prod, id);
}

#[test]
fn rotate_y_zero_is_identity() {
    assert_eq!(Mat3I16::rotate_y(0), Mat3I16::identity());
}

#[test]
fn rotate_xyz_uses_x_then_y_then_z_order() {
    let expected = Mat3I16::rotate_x(17)
        .mul(&Mat3I16::rotate_y(39))
        .mul(&Mat3I16::rotate_z(73));
    assert_eq!(Mat3I16::rotate_xyz(17, 39, 73), expected);
    assert_ne!(
        Mat3I16::rotate_xyz(17, 39, 73),
        Mat3I16::rotate_z(73)
            .mul(&Mat3I16::rotate_y(39))
            .mul(&Mat3I16::rotate_x(17))
    );
}

#[test]
fn row_and_column_scaling_are_explicit_and_saturating() {
    let matrix = Mat3I16 {
        m: [
            [0x1000, 0x0800, 0],
            [0, 0x1000, 0x0400],
            [0x0200, 0, 0x1000],
        ],
    };
    assert_eq!(
        matrix.scale_rows_q12([0x0800, 0x1000, 0x2000]).m,
        [
            [0x0800, 0x0400, 0],
            [0, 0x1000, 0x0400],
            [0x0400, 0, 0x2000]
        ]
    );
    assert_eq!(
        matrix.scale_columns_q12([0x0800, 0x1000, 0x2000]).m,
        [
            [0x0800, 0x0800, 0],
            [0, 0x1000, 0x0800],
            [0x0100, 0, 0x2000]
        ]
    );
    assert_eq!(
        Mat3I16::identity()
            .scale_rows_q12([i32::MAX, 0x1000, 0x1000])
            .m[0][0],
        i16::MAX
    );
}

#[test]
fn rotate_y_quarter_turn_swaps_axes() {
    // 90° Y rotation: (1,0,0) → (0,0,-1), (0,0,1) → (1,0,0).
    let m = Mat3I16::rotate_y(64);
    assert_eq!(m.m[0][0], 0);
    assert_eq!(m.m[0][2], 0x1000);
    assert_eq!(m.m[2][0], -0x1000);
    assert_eq!(m.m[2][2], 0);
    // Y axis untouched.
    assert_eq!(m.m[1][1], 0x1000);
}

#[test]
fn rotate_x_then_inverse_round_trips() {
    // Rotating by θ then by -θ (256-θ in our units) should yield
    // the identity within rounding error.
    let r = Mat3I16::rotate_x(30);
    let r_inv = Mat3I16::rotate_x(226);
    let prod = r.mul(&r_inv);
    // Diagonal should be ≈ 0x1000, off-diagonal ≈ 0.
    for i in 0..3 {
        for j in 0..3 {
            let expected = if i == j { 0x1000 } else { 0 };
            let diff = (prod.m[i][j] as i32 - expected).abs();
            assert!(
                diff < 8,
                "rotate_x ∘ rotate_x⁻¹ cell ({i},{j}) = {:#x}, expected ≈ {expected:#x}",
                prod.m[i][j]
            );
        }
    }
}

#[test]
fn transform_identity_leaves_vector_unchanged() {
    let v = Vec3I16::new(100, -200, 300);
    let r = Mat3I16::identity().transform(v);
    assert_eq!(r, [100, -200, 300]);
}

#[test]
fn transform_rotate_y_quarter_turn() {
    // (1, 0, 0) after 90° Y = (0, 0, -1) in our convention.
    let v = Vec3I16::new(0x1000, 0, 0);
    let r = Mat3I16::rotate_y(64).transform(v);
    assert_eq!(r, [0, 0, -0x1000]);
}

#[test]
fn scheduled_rotation_compose_matches_cpu_matrix_product() {
    let left = Mat3I16::rotate_z(37).mul(&Mat3I16::rotate_y(91));
    let right = Mat3I16::rotate_y(13)
        .mul(&Mat3I16::rotate_x(55))
        .scale_columns_q12([3072, 4096, 5120]);

    assert_eq!(compose_rotation_scheduled(&left, &right), left.mul(&right));
    // Sums beyond 32 bits saturate alike.
    let huge = Mat3I16 { m: [[i16::MIN; 3]; 3] };
    assert_eq!(compose_rotation_scheduled(&huge, &huge), huge.mul(&huge));
    assert_eq!(huge.mul(&huge).m[1][2], i16::MAX);
}

#[test]
fn classic_normalize_matches_reference_table_results() {
    for (input, vector, xy_squared, squared) in [
        ([1, 0, 0], [4096, 0, 0], 1, 1),
        ([3, 4, 0], [2457, 3276, 0], 25, 25),
        ([10, 20, 30], [1097, 2195, 3293], 500, 1400),
        ([-10, 20, 30], [-1098, 2195, 3293], 500, 1400),
        ([100, 50, -20], [3610, 1805, -723], 12_500, 12_900),
        ([600, 0, 200], [3898, 0, 1299], 360_000, 400_000),
    ] {
        let result = normalize_classic_q12_scheduled(Vec3I32::new(
            input[0] << 12,
            input[1] << 12,
            input[2] << 12,
        ));
        assert_eq!(
            result,
            ClassicNormalizedVector {
                vector: Vec3I16::new(vector[0], vector[1], vector[2]),
                xy_squared,
                squared,
            }
        );
    }

    assert_eq!(
        normalize_classic_q12_scheduled(Vec3I32::zero()),
        ClassicNormalizedVector { vector: Vec3I16::zero(), xy_squared: 0, squared: 0 }
    );
}

#[test]
fn scheduled_nclip_matches_software_area_on_host() {
    let vertices = [(-320, 112), (47, -91), (511, 230)];
    assert_eq!(
        screen_area_mac0_scheduled(vertices),
        screen_area_mac0(vertices)
    );
    assert_eq!(screen_area_mac0(vertices), 367 * 118 + 203 * 831);
    assert!(!screen_triangle_back_facing(vertices));
    assert!(screen_triangle_back_facing([vertices[0], vertices[2], vertices[1]]));
}

#[test]
fn scheduled_nclip_face_unpack_matches_packed_record() {
    let vertices = [(-320, 112), (47, -91), (511, 230)];
    let corners = [0xabcd_c123, 0x0123_4567, 0xfedc_89ab];
    assert_eq!(
        screen_area_and_unpack_model_face_scheduled(vertices, corners),
        (
            screen_area_mac0(vertices),
            [0xabcd, 0x0123, 0xfedc],
            ((0xc123 >> 14) & 3) as u8,
        ),
    );
}

#[test]
fn cached_average_z_matches_avsz_saturation_rules() {
    assert_eq!(average_z3_otz([100, 200, 300], 1_365), 199);
    assert_eq!(average_z4_otz([100, 200, 300, 400], 1_024), 250);
    assert_eq!(average_z3_otz([u16::MAX; 3], i16::MAX), u16::MAX);
    assert_eq!(average_z4_otz([u16::MAX; 4], -1), 0);

    assert_eq!(average_cached_z3([100, 200, 300], 1_365), 199);
    assert_eq!(average_cached_z4([100, 200, 300, 400], 1_024), 250);
    assert_eq!(classic_otz3_from_sum(100 + 200 + 300), 49);

    let vertices = [(-320, 112), (47, -91), (511, 230)];
    assert_eq!(
        screen_area_and_average_cached_z3_scheduled(vertices, [100, 200, 300], 1_365),
        (screen_area_mac0(vertices), 199),
    );
    assert_eq!(
        screen_area_and_classic_otz3_scheduled(vertices, [100, 200, 300]),
        (screen_area_mac0(vertices), 49),
    );
}

#[test]
fn four_plane_aabb_clip_matches_scalar_support_points() {
    let plane = |normal: [i16; 3], distance| AabbClipPlane {
        normal,
        kind: 0,
        signbits: (normal[0] < 0) as u8
            | (((normal[1] < 0) as u8) << 1)
            | (((normal[2] < 0) as u8) << 2),
        distance,
    };
    let planes = [
        plane([4096, 1024, -512], -3000),
        plane([-2048, 4096, 256], 7000),
        plane([300, -900, 4096], -12000),
        plane([-700, -500, -4096], 16000),
    ];

    let scalar = |mins: [i16; 3], maxs: [i16; 3], mut flags: u8| {
        for (index, plane) in planes.iter().enumerate() {
            let flag = 1u8 << index;
            if flags & flag == 0 {
                continue;
            }
            let outer = [
                if plane.normal[0] < 0 {
                    mins[0]
                } else {
                    maxs[0]
                },
                if plane.normal[1] < 0 {
                    mins[1]
                } else {
                    maxs[1]
                },
                if plane.normal[2] < 0 {
                    mins[2]
                } else {
                    maxs[2]
                },
            ];
            let inner = [
                if plane.normal[0] < 0 {
                    maxs[0]
                } else {
                    mins[0]
                },
                if plane.normal[1] < 0 {
                    maxs[1]
                } else {
                    mins[1]
                },
                if plane.normal[2] < 0 {
                    maxs[2]
                } else {
                    mins[2]
                },
            ];
            let dot = |point: [i16; 3]| {
                plane.normal[0] as i32 * point[0] as i32
                    + plane.normal[1] as i32 * point[1] as i32
                    + plane.normal[2] as i32 * point[2] as i32
            };
            if dot(outer) < plane.distance {
                return -1;
            }
            if dot(inner) >= plane.distance {
                flags &= !flag;
            }
        }
        flags as i32
    };

    for (mins, maxs, flags) in [
        ([-10, -20, -30], [40, 50, 60], 0x0f),
        ([100, 200, 300], [120, 240, 360], 0x0f),
        ([-32000, -100, 20], [-30000, 100, 80], 0x05),
    ] {
        let expected = scalar(mins, maxs, flags);
        assert_eq!(classify_aabb_clip4(mins, maxs, &planes, flags), expected);
        assert_eq!(aabb_outside_clip4(mins, maxs, &planes, flags), expected < 0,);
    }
    assert_eq!(core::mem::size_of::<AabbClipPlane>(), 12);
    assert_eq!(core::mem::align_of::<AabbClipPlane>(), 4);
    // A box on the right side of every selected plane keeps no flag of them.
    let open = plane([4096, 0, 0], -5000);
    let easy = [open, open, open, open];
    assert_eq!(classify_aabb_clip4([0, 0, 0], [1, 1, 1], &easy, 0xF5), 0xF0);
}

fn pairs(writes: &[RegisterWrite]) -> Vec<(u8, u32)> {
    writes.iter().map(|w| (w.register, w.value)).collect()
}

#[test]
fn registers_hold_cells_two_by_two() {
    let m = Mat3I16 { m: [[1, -1, 2], [-2, 3, -3], [4, -4, -5]] };
    let words = [0xFFFF_0001u32, 0xFFFE_0002, 0xFFFD_0003, 0xFFFC_0004, 0xFFFF_FFFB];
    let at = |first: u8| -> Vec<(u8, u32)> {
        words.iter().enumerate().map(|(i, w)| (first + i as u8, *w)).collect()
    };
    assert_eq!(pairs(&load_rotation(&m)), at(0));
    assert_eq!(pairs(&load_light_matrix(&m)), at(8));
    assert_eq!(pairs(&load_light_colour_matrix(&m)), at(16));
    let v = Vec3I32::new(1, -1, 0);
    assert_eq!(pairs(&load_translation(v)), [(5, 1), (6, 0xFFFF_FFFF), (7, 0)]);
    assert_eq!(pairs(&load_background_colour(v)), [(13, 1), (14, 0xFFFF_FFFF), (15, 0)]);
    assert_eq!(pairs(&load_far_colour(v)), [(21, 1), (22, 0xFFFF_FFFF), (23, 0)]);
    assert_eq!(
        pairs(&set_screen_offset(160 << 16, -1)),
        [(24, 160 << 16), (25, 0xFFFF_FFFF)]
    );
    assert_eq!(set_projection_plane(200), RegisterWrite { register: 26, value: 200 });
    assert_eq!(pairs(&set_depth_cue(-2, 7)), [(27, 0xFFFF_FFFE), (28, 7)]);
    assert_eq!(pairs(&set_avsz_weights(0x555, -1)), [(29, 0x555), (30, 0xFFFF_FFFF)]);
    assert_eq!(
        pairs(&load_vertex(Vec3I16::new(1, -2, -3))),
        [(0, 0xFFFE_0001), (1, 0xFFFF_FFFD)]
    );
    assert_eq!(
        pairs(&load_triangle(Vec3I16::new(1, 2, 3), Vec3I16::new(4, 5, 6), Vec3I16::zero())),
        [(0, 0x2_0001), (1, 3), (2, 0x5_0004), (3, 6), (4, 0), (5, 0)]
    );
    assert_eq!(pairs(&load_depths3([7, 8, 0xFFFF])), [(17, 7), (18, 8), (19, 0xFFFF)]);
    assert_eq!(pairs(&load_depths4([6, 7, 8, 9])), [(16, 6), (17, 7), (18, 8), (19, 9)]);
}

#[test]
fn clipping_planes_take_two_matrices() {
    let plane = |normal: [i16; 3]| AabbClipPlane { normal, kind: 0, signbits: 0, distance: 0 };
    let planes = [plane([1, 2, 3]), plane([4, 5, 6]), plane([7, 8, 9]), plane([10, 11, 12])];
    let (rotation, light) = load_aabb_clip4(&planes);
    assert_eq!(
        pairs(&rotation),
        [(0, 0x2_0001), (1, 0x4_0003), (2, 0x6_0005), (3, 0x8_0007), (4, 9)]
    );
    assert_eq!(pairs(&light), [(8, 0xB_000A), (9, 12), (10, 0), (11, 0), (12, 0)]);
}

#[test]
fn registers_are_read_back() {
    assert_eq!(
        Projected::from_registers(0xFFFF_0123, 0xABCD_4321),
        Projected { sx: 0x123, sy: -1, sz: 0x4321 }
    );
    let t = Projected::triangle_from_registers([1, 0x8000_0000, 3], [4, 5, 0x1_0006]);
    assert_eq!(t[1], Projected { sx: 0, sy: -0x8000, sz: 5 });
    assert_eq!(t[2], Projected { sx: 3, sy: 0, sz: 6 });
    assert_eq!(vector_from_registers([1, 0xFFFF_FFFF, 0x8000_0000]), Vec3I32::new(1, -1, i32::MIN));
    let probe = TransformProbe::from_registers([1, 2, 3], 0xFFFF_FFFE, [4, 5, 6]);
    assert_eq!(probe.out, Vec3I32::new(1, 2, 3));
    assert_eq!((probe.x_settled, probe.tr), (-2, [4, 5, 6]));
}

#[test]
fn mvmva_transform_through_host_shim_applies_rt_and_tr() {
    let transformed = transform_vertex(
        &Mat3I16::identity(),
        Vec3I32::new(10, -20, 30),
        Vec3I16::new(100, 200, 300),
    );

    assert_eq!(transformed, Vec3I32::new(110, 180, 330));
    assert_eq!(
        transform_vertex_scheduled(
            &Mat3I16 { m: [[-1, 0, 0], [0, 4096, 4096], [0, 0, 2048]] },
            Vec3I32::new(0, i32::MAX, 0),
            Vec3I16::new(1, 1, 3),
        ),
        Vec3I32::new(-1, i32::MIN + 3, 1)
    );
}
