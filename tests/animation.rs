use sepia::animation::{
    Channel, ChannelError, Interpolation, Sampled, TransformationSet, UnsupportedAnimationFeature,
};
use sepia::fixed::ONE;
use sepia::matrix::{Quat, Vec3};

fn v3(x: i64, y: i64, z: i64) -> Vec3 {
    Vec3 { x, y, z }
}

fn bounce() -> Channel {
    Channel::new(
        0,
        vec![0, 1000, 2000],
        TransformationSet::Translations(vec![v3(0, 0, 0), v3(ONE, 0, 0), v3(0, 0, 0)]),
        Interpolation::Linear,
    )
    .unwrap()
}

#[test]
fn keyframe_time_gives_exact_value() {
    let mut c = bounce();
    assert_eq!(c.sample(1000), Ok(Sampled::Translation(v3(ONE, 0, 0))));
}

#[test]
fn first_keyframe_gives_first_value() {
    let mut c = bounce();
    assert_eq!(c.sample(0), Ok(Sampled::Translation(v3(0, 0, 0))));
}

#[test]
fn halfway_between_keys_interpolates_linearly() {
    let mut c = bounce();
    assert_eq!(c.sample(500), Ok(Sampled::Translation(v3(ONE / 2, 0, 0))));
    assert_eq!(c.sample(1500), Ok(Sampled::Translation(v3(ONE / 2, 0, 0))));
    assert_eq!(c.sample(1250), Ok(Sampled::Translation(v3(3 * ONE / 4, 0, 0))));
}

#[test]
fn time_past_the_last_key_wraps_around() {
    let mut a = bounce();
    let mut b = bounce();
    assert_eq!(a.sample(2500), b.sample(500));
    assert_eq!(a.sample(2500), Ok(Sampled::Translation(v3(ONE / 2, 0, 0))));
}

#[test]
fn last_key_time_wraps_to_start() {
    let mut c = bounce();
    assert_eq!(c.sample(2000), Ok(Sampled::Translation(v3(0, 0, 0))));
}

#[test]
fn sequential_sampling_matches_fresh_sampling() {
    let mut seq = bounce();
    seq.sample(300);
    seq.sample(1200);
    let r = seq.sample(1800);
    let mut fresh = bounce();
    assert_eq!(r, fresh.sample(1800));
    assert_eq!(r, Ok(Sampled::Translation(v3(ONE - 4 * ONE / 5, 0, 0))));
}

#[test]
fn rewinding_resets_the_cursor() {
    let mut c = bounce();
    c.sample(1800);
    let r = c.sample(200);
    let mut fresh = bounce();
    assert_eq!(r, fresh.sample(200));
    assert_eq!(r, Ok(Sampled::Translation(v3(ONE / 5, 0, 0))));
}

#[test]
fn time_before_first_key_is_raised_to_it() {
    let mut c = Channel::new(
        3,
        vec![500, 1000],
        TransformationSet::Scales(vec![v3(ONE, ONE, ONE), v3(2 * ONE, 2 * ONE, 2 * ONE)]),
        Interpolation::Linear,
    )
    .unwrap();
    assert_eq!(c.node_index(), 3);
    assert_eq!(c.sample(100), Ok(Sampled::Scale(v3(ONE, ONE, ONE))));
    assert_eq!(c.sample(750), Ok(Sampled::Scale(v3(3 * ONE / 2, 3 * ONE / 2, 3 * ONE / 2))));
}

#[test]
fn coincident_keys_do_not_divide_by_zero() {
    let mut c = Channel::new(
        0,
        vec![0, 1000, 1000, 2000],
        TransformationSet::Translations(vec![
            v3(0, 0, 0),
            v3(ONE, 0, 0),
            v3(4 * ONE, 0, 0),
            v3(8 * ONE, 0, 0),
        ]),
        Interpolation::Linear,
    )
    .unwrap();
    assert_eq!(c.sample(1000), Ok(Sampled::Translation(v3(ONE, 0, 0))));
    assert_eq!(c.sample(1500), Ok(Sampled::Translation(v3(6 * ONE, 0, 0))));
}

#[test]
fn single_keyframe_is_constant() {
    let mut c = Channel::new(
        0,
        vec![0],
        TransformationSet::Translations(vec![v3(7, 8, 9)]),
        Interpolation::Linear,
    )
    .unwrap();
    assert_eq!(c.sample(0), Ok(Sampled::Translation(v3(7, 8, 9))));
    assert_eq!(c.sample(12345), Ok(Sampled::Translation(v3(7, 8, 9))));
}

#[test]
fn rotations_interpolate_component_wise() {
    let mut c = Channel::new(
        1,
        vec![0, 1000],
        TransformationSet::Rotations(vec![
            Quat { x: 0, y: 0, z: 0, w: ONE },
            Quat { x: 0, y: 0, z: ONE, w: 0 },
        ]),
        Interpolation::Linear,
    )
    .unwrap();
    assert_eq!(
        c.sample(500),
        Ok(Sampled::Rotation(Quat { x: 0, y: 0, z: ONE / 2, w: ONE / 2 }))
    );
}

#[test]
fn negative_steps_round_toward_the_start() {
    let mut c = Channel::new(
        0,
        vec![0, 3],
        TransformationSet::Translations(vec![v3(0, 0, 0), v3(-1, 1, 0)]),
        Interpolation::Linear,
    )
    .unwrap();
    assert_eq!(c.sample(1), Ok(Sampled::Translation(v3(0, 0, 0))));
    assert_eq!(c.sample(2), Ok(Sampled::Translation(v3(0, 0, 0))));
}

#[test]
fn non_linear_interpolation_is_reported() {
    for mode in [Interpolation::Step, Interpolation::CubicSpline, Interpolation::CatmullRomSpline] {
        let mut c = Channel::new(
            0,
            vec![0, 1000],
            TransformationSet::Translations(vec![v3(0, 0, 0), v3(ONE, 0, 0)]),
            mode,
        )
        .unwrap();
        assert_eq!(c.sample(500), Err(UnsupportedAnimationFeature::NonLinearInterpolation));
    }
}

#[test]
fn morph_target_weights_are_reported() {
    let mut c = Channel::new(
        0,
        vec![0, 1000],
        TransformationSet::MorphTargetWeights(vec![0, ONE]),
        Interpolation::Linear,
    )
    .unwrap();
    assert_eq!(c.sample(500), Err(UnsupportedAnimationFeature::MorphTargetWeights));
}

#[test]
fn channel_without_keyframes_is_refused() {
    let r = Channel::new(
        0,
        vec![],
        TransformationSet::Translations(vec![]),
        Interpolation::Linear,
    );
    assert_eq!(r.unwrap_err(), ChannelError::NoKeyframes);
}

#[test]
fn decreasing_keyframes_are_refused() {
    let r = Channel::new(
        0,
        vec![0, 1000, 500],
        TransformationSet::Translations(vec![v3(0, 0, 0), v3(0, 0, 0), v3(0, 0, 0)]),
        Interpolation::Linear,
    );
    assert_eq!(r.unwrap_err(), ChannelError::UnorderedKeyframes);
}

#[test]
fn value_count_must_match_keyframes() {
    let r = Channel::new(
        0,
        vec![0, 1000],
        TransformationSet::Scales(vec![v3(0, 0, 0)]),
        Interpolation::Linear,
    );
    assert_eq!(r.unwrap_err(), ChannelError::LengthMismatch);
}

#[test]
fn rotations_outside_unit_range_are_refused() {
    let r = Channel::new(
        0,
        vec![0],
        TransformationSet::Rotations(vec![Quat { x: 2 * ONE, y: 0, z: 0, w: 0 }]),
        Interpolation::Linear,
    );
    assert_eq!(r.unwrap_err(), ChannelError::RotationOutOfRange);
}
