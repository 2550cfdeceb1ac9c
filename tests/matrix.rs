use sepia::fixed::{lerp_raw, ONE};
use sepia::matrix::{Mat4, Quat, Vec3};
use sepia::transform::Transform;

fn translation(x: i64, y: i64, z: i64) -> Mat4 {
    Mat4::translation(Vec3 { x, y, z })
}

#[test]
fn identity_is_neutral() {
    let t = translation(3 * ONE, -2 * ONE, ONE / 2);
    assert_eq!(t.mul(&Mat4::identity()), t);
    assert_eq!(Mat4::identity().mul(&t), t);
}

#[test]
fn translations_compose_by_adding() {
    let a = translation(ONE, 2 * ONE, 0);
    let b = translation(-3 * ONE, 0, ONE);
    assert_eq!(a.mul(&b), translation(-2 * ONE, 2 * ONE, ONE));
}

#[test]
fn scaling_then_translation() {
    let s = Mat4::scaling(Vec3 { x: 2 * ONE, y: 3 * ONE, z: ONE / 2 });
    let t = translation(ONE, ONE, ONE);
    let m = s.mul(&t);
    assert_eq!(m.m[0], 2 * ONE);
    assert_eq!(m.m[5], 3 * ONE);
    assert_eq!(m.m[10], ONE / 2);
    assert_eq!(m.m[3], 2 * ONE);
    assert_eq!(m.m[7], 3 * ONE);
    assert_eq!(m.m[11], ONE / 2);
}

#[test]
fn products_saturate() {
    let big = Mat4::scaling(Vec3 { x: i64::MAX, y: 1, z: 1 });
    let m = big.mul(&big);
    assert_eq!(m.m[0], i64::MAX);
}

#[test]
fn quarter_turn_about_z() {
    let r = Mat4::rotation(Quat { x: 0, y: 0, z: ONE, w: ONE });
    assert_eq!(r.m, [0, -ONE, 0, 0, ONE, 0, 0, 0, 0, 0, ONE, 0, 0, 0, 0, ONE]);
}

#[test]
fn rotation_normalises_the_quaternion() {
    let a = Mat4::rotation(Quat { x: 0, y: ONE / 4, z: 0, w: ONE / 4 });
    let b = Mat4::rotation(Quat { x: 0, y: ONE, z: 0, w: ONE });
    assert_eq!(a, b);
    assert_eq!(a.m[2], ONE);
    assert_eq!(a.m[8], -ONE);
}

#[test]
fn zero_quaternion_is_no_rotation() {
    assert_eq!(Mat4::rotation(Quat { x: 0, y: 0, z: 0, w: 0 }), Mat4::identity());
}

#[test]
fn empty_override_is_identity() {
    assert_eq!(Transform::default().matrix(), Mat4::identity());
}

#[test]
fn override_is_translation_rotation_scale() {
    let t = Transform {
        translation: Some(Vec3 { x: ONE, y: 0, z: 0 }),
        rotation: Some(Quat { x: 0, y: 0, z: ONE, w: ONE }),
        scale: Some(Vec3 { x: 2 * ONE, y: 2 * ONE, z: 2 * ONE }),
    };
    let m = t.matrix();
    assert_eq!(m.m, [0, -2 * ONE, 0, ONE, 2 * ONE, 0, 0, 0, 0, 0, 2 * ONE, 0, 0, 0, 0, ONE]);
}

#[test]
fn lerp_hits_both_ends() {
    assert_eq!(lerp_raw(-5, 17, 0, 9), -5);
    assert_eq!(lerp_raw(-5, 17, 9, 9), 17);
    assert_eq!(lerp_raw(i64::MIN, i64::MAX, 1, 2), -1);
    assert_eq!(lerp_raw(10, 0, 1, 4), 8);
}

#[test]
fn affine_inverse_undoes_translation_and_scale() {
    let m = translation(ONE, -2 * ONE, 3 * ONE).mul(&Mat4::scaling(Vec3 { x: 2 * ONE, y: 4 * ONE, z: ONE / 2 }));
    let inv = m.affine_inverse();
    assert_eq!(inv.m[0], ONE / 2);
    assert_eq!(inv.m[5], ONE / 4);
    assert_eq!(inv.m[10], 2 * ONE);
    assert_eq!(inv.m[3], -ONE / 2);
    assert_eq!(inv.m[7], ONE / 2);
    assert_eq!(inv.m[11], -6 * ONE);
    assert_eq!(m.mul(&inv), Mat4::identity());
}

#[test]
fn affine_inverse_of_rotation_is_its_transpose() {
    let r = Mat4::rotation(Quat { x: 0, y: 0, z: ONE, w: ONE });
    let inv = r.affine_inverse();
    assert_eq!(inv.m, [0, ONE, 0, 0, -ONE, 0, 0, 0, 0, 0, ONE, 0, 0, 0, 0, ONE]);
}

#[test]
fn singular_matrix_has_identity_inverse() {
    let flat = Mat4::scaling(Vec3 { x: ONE, y: 0, z: ONE });
    assert_eq!(flat.affine_inverse(), Mat4::identity());
}
